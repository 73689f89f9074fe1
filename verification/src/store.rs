//! The in-memory authoritative state of the cluster: deployments, pods and
//! nodes, with keyed access (deployment name, pod id, node name), the counting
//! and filtering queries the reconciler needs, and node resource accounting.
//!
//! Records are held in insertion order; the well-formedness predicate `wf`
//! says that keys are unique, every operation preserves it, and the contracts
//! say exactly which record each operation touches.

use vstd::prelude::*;

use crate::models::{
    sat_sub, spec_node_can_fit, status_active, status_terminable, pod_in_deployment, Deployment,
    Node, NodeStatus, Pod, PodStatus, Resources,
};
use crate::text::{seq_char_lt, str_eq, str_lt};

verus! {

// ---------------------------------------------------------------------------
// Spec vocabulary over the record sequences
// ---------------------------------------------------------------------------
/// Deployment names are pairwise distinct.
pub open spec fn dep_names_unique(deps: Seq<Deployment>) -> bool {
    forall|i: int, j: int| 0 <= i < j < deps.len() ==> deps[i].name@ != deps[j].name@
}

/// Pod ids are pairwise distinct.
pub open spec fn pod_ids_unique(pods: Seq<Pod>) -> bool {
    forall|i: int, j: int| 0 <= i < j < pods.len() ==> pods[i].id != pods[j].id
}

/// Node names are pairwise distinct.
pub open spec fn node_names_unique(nodes: Seq<Node>) -> bool {
    forall|i: int, j: int| 0 <= i < j < nodes.len() ==> nodes[i].name@ != nodes[j].name@
}

pub open spec fn has_deployment(deps: Seq<Deployment>, name: Seq<char>) -> bool {
    exists|i: int| 0 <= i < deps.len() && deps[i].name@ == name
}

pub open spec fn has_pod(pods: Seq<Pod>, id: u128) -> bool {
    exists|i: int| 0 <= i < pods.len() && pods[i].id == id
}

pub open spec fn has_node(nodes: Seq<Node>, name: Seq<char>) -> bool {
    exists|i: int| 0 <= i < nodes.len() && nodes[i].name@ == name
}

// With unique keys, the index of a key is well defined; these functions name
// it, and the update they induce, so that contracts can state the new record
// set in one expression.
pub open spec fn dep_idx(deps: Seq<Deployment>, name: Seq<char>) -> int {
    choose|i: int| 0 <= i < deps.len() && deps[i].name@ == name
}

/// The deployment with the given name.
pub open spec fn the_dep(deps: Seq<Deployment>, name: Seq<char>) -> Deployment {
    deps[dep_idx(deps, name)]
}

/// The record set with the named deployment replaced, if it is there.
pub open spec fn update_dep(deps: Seq<Deployment>, name: Seq<char>, d: Deployment) -> Seq<
    Deployment,
> {
    if has_deployment(deps, name) {
        deps.update(dep_idx(deps, name), d)
    } else {
        deps
    }
}

/// The record set after an upsert: replace the record under the same name,
/// or append.
pub open spec fn upsert_dep(deps: Seq<Deployment>, d: Deployment) -> Seq<Deployment> {
    if has_deployment(deps, d.name@) {
        deps.update(dep_idx(deps, d.name@), d)
    } else {
        deps.push(d)
    }
}

/// The record set with the named deployment removed, if it is there.
pub open spec fn remove_dep(deps: Seq<Deployment>, name: Seq<char>) -> Seq<Deployment> {
    if has_deployment(deps, name) {
        deps.remove(dep_idx(deps, name))
    } else {
        deps
    }
}

pub open spec fn pod_idx(pods: Seq<Pod>, id: u128) -> int {
    choose|i: int| 0 <= i < pods.len() && pods[i].id == id
}

/// The pod with the given id.
pub open spec fn the_pod(pods: Seq<Pod>, id: u128) -> Pod {
    pods[pod_idx(pods, id)]
}

/// The record set with the identified pod replaced, if it is there.
pub open spec fn update_pod(pods: Seq<Pod>, id: u128, p: Pod) -> Seq<Pod> {
    if has_pod(pods, id) {
        pods.update(pod_idx(pods, id), p)
    } else {
        pods
    }
}

/// The record set after an upsert keyed by pod id.
pub open spec fn upsert_pod(pods: Seq<Pod>, p: Pod) -> Seq<Pod> {
    if has_pod(pods, p.id) {
        pods.update(pod_idx(pods, p.id), p)
    } else {
        pods.push(p)
    }
}

/// The record set with the identified pod removed, if it is there.
pub open spec fn remove_pod(pods: Seq<Pod>, id: u128) -> Seq<Pod> {
    if has_pod(pods, id) {
        pods.remove(pod_idx(pods, id))
    } else {
        pods
    }
}

pub open spec fn node_idx(nodes: Seq<Node>, name: Seq<char>) -> int {
    choose|i: int| 0 <= i < nodes.len() && nodes[i].name@ == name
}

/// The node with the given name.
pub open spec fn the_node(nodes: Seq<Node>, name: Seq<char>) -> Node {
    nodes[node_idx(nodes, name)]
}

/// The record set with the named node replaced, if it is there.
pub open spec fn update_node(nodes: Seq<Node>, name: Seq<char>, n: Node) -> Seq<Node> {
    if has_node(nodes, name) {
        nodes.update(node_idx(nodes, name), n)
    } else {
        nodes
    }
}

/// The record set after an upsert keyed by node name.
pub open spec fn upsert_node(nodes: Seq<Node>, n: Node) -> Seq<Node> {
    if has_node(nodes, n.name@) {
        nodes.update(node_idx(nodes, n.name@), n)
    } else {
        nodes.push(n)
    }
}

/// The record set with the named node removed, if it is there.
pub open spec fn remove_node(nodes: Seq<Node>, name: Seq<char>) -> Seq<Node> {
    if has_node(nodes, name) {
        nodes.remove(node_idx(nodes, name))
    } else {
        nodes
    }
}

/// With unique names, a matching index is the index `dep_idx` names.
pub proof fn lemma_dep_idx_of(deps: Seq<Deployment>, name: Seq<char>, i: int)
    requires
        dep_names_unique(deps),
        0 <= i < deps.len(),
        deps[i].name@ == name,
    ensures
        has_deployment(deps, name),
        dep_idx(deps, name) == i,
{
    assert(has_deployment(deps, name));
    let j = dep_idx(deps, name);
    assert(0 <= j < deps.len() && deps[j].name@ == name);
}

/// With unique ids, a matching index is the index `pod_idx` names.
pub proof fn lemma_pod_idx_of(pods: Seq<Pod>, id: u128, i: int)
    requires
        pod_ids_unique(pods),
        0 <= i < pods.len(),
        pods[i].id == id,
    ensures
        has_pod(pods, id),
        pod_idx(pods, id) == i,
{
    assert(has_pod(pods, id));
    let j = pod_idx(pods, id);
    assert(0 <= j < pods.len() && pods[j].id == id);
}

/// With unique names, a matching index is the index `node_idx` names.
pub proof fn lemma_node_idx_of(nodes: Seq<Node>, name: Seq<char>, i: int)
    requires
        node_names_unique(nodes),
        0 <= i < nodes.len(),
        nodes[i].name@ == name,
    ensures
        has_node(nodes, name),
        node_idx(nodes, name) == i,
{
    assert(has_node(nodes, name));
    let j = node_idx(nodes, name);
    assert(0 <= j < nodes.len() && nodes[j].name@ == name);
}

/// Pods of a deployment that count toward its replicas: all but `Terminated`
/// and `Failed`.
pub open spec fn count_active(pods: Seq<Pod>, d: Seq<char>) -> int
    decreases pods.len(),
{
    if pods.len() == 0 {
        0
    } else {
        count_active(pods.drop_last(), d) + if pod_in_deployment(pods.last(), d) && status_active(
            pods.last().status,
        ) {
            1int
        } else {
            0int
        }
    }
}

/// Running pods of a deployment.
pub open spec fn count_running(pods: Seq<Pod>, d: Seq<char>) -> int
    decreases pods.len(),
{
    if pods.len() == 0 {
        0
    } else {
        count_running(pods.drop_last(), d) + if pod_in_deployment(pods.last(), d)
            && pods.last().status == PodStatus::Running {
            1int
        } else {
            0int
        }
    }
}

/// Active pods of a deployment at one revision.
pub open spec fn count_active_rev(pods: Seq<Pod>, d: Seq<char>, rev: u64) -> int
    decreases pods.len(),
{
    if pods.len() == 0 {
        0
    } else {
        count_active_rev(pods.drop_last(), d, rev) + if pod_in_deployment(pods.last(), d)
            && pods.last().revision == rev && status_active(pods.last().status) {
            1int
        } else {
            0int
        }
    }
}

/// Running pods of a deployment at one revision.
pub open spec fn count_running_rev(pods: Seq<Pod>, d: Seq<char>, rev: u64) -> int
    decreases pods.len(),
{
    if pods.len() == 0 {
        0
    } else {
        count_running_rev(pods.drop_last(), d, rev) + if pod_in_deployment(pods.last(), d)
            && pods.last().revision == rev && pods.last().status == PodStatus::Running {
            1int
        } else {
            0int
        }
    }
}

/// The pods of a deployment, in store order.
pub open spec fn filter_deployment_pods(pods: Seq<Pod>, d: Seq<char>) -> Seq<Pod>
    decreases pods.len(),
{
    if pods.len() == 0 {
        Seq::empty()
    } else {
        filter_deployment_pods(pods.drop_last(), d) + if pod_in_deployment(pods.last(), d) {
            seq![pods.last()]
        } else {
            Seq::empty()
        }
    }
}

/// Candidates for termination in a deployment: active and not already
/// terminating, in store order.
pub open spec fn filter_terminable(pods: Seq<Pod>, d: Seq<char>) -> Seq<Pod>
    decreases pods.len(),
{
    if pods.len() == 0 {
        Seq::empty()
    } else {
        filter_terminable(pods.drop_last(), d) + if pod_in_deployment(pods.last(), d)
            && status_terminable(pods.last().status) {
            seq![pods.last()]
        } else {
            Seq::empty()
        }
    }
}

/// Active pods of a deployment left over from revisions before `rev`, in
/// store order. A terminating pod still counts: it is active until its
/// removal is confirmed.
pub open spec fn filter_old_rev(pods: Seq<Pod>, d: Seq<char>, rev: u64) -> Seq<Pod>
    decreases pods.len(),
{
    if pods.len() == 0 {
        Seq::empty()
    } else {
        filter_old_rev(pods.drop_last(), d, rev) + if pod_in_deployment(pods.last(), d)
            && pods.last().revision < rev && status_active(pods.last().status) {
            seq![pods.last()]
        } else {
            Seq::empty()
        }
    }
}

/// Termination candidates of a deployment left over from revisions before
/// `rev`: old-revision pods that are active and not already terminating.
pub open spec fn filter_old_terminable(pods: Seq<Pod>, d: Seq<char>, rev: u64) -> Seq<Pod>
    decreases pods.len(),
{
    if pods.len() == 0 {
        Seq::empty()
    } else {
        filter_old_terminable(pods.drop_last(), d, rev) + if pod_in_deployment(pods.last(), d)
            && pods.last().revision < rev && status_terminable(pods.last().status) {
            seq![pods.last()]
        } else {
            Seq::empty()
        }
    }
}

/// Pods awaiting placement: no node assigned, `Pending` or `Creating`.
pub open spec fn filter_unassigned(pods: Seq<Pod>) -> Seq<Pod>
    decreases pods.len(),
{
    if pods.len() == 0 {
        Seq::empty()
    } else {
        filter_unassigned(pods.drop_last()) + if pods.last().node_name is None && (
        pods.last().status == PodStatus::Pending || pods.last().status == PodStatus::Creating) {
            seq![pods.last()]
        } else {
            Seq::empty()
        }
    }
}

/// The `Ready` nodes, in store order.
pub open spec fn filter_ready(nodes: Seq<Node>) -> Seq<Node>
    decreases nodes.len(),
{
    if nodes.len() == 0 {
        Seq::empty()
    } else {
        filter_ready(nodes.drop_last()) + if nodes.last().status == NodeStatus::Ready {
            seq![nodes.last()]
        } else {
            Seq::empty()
        }
    }
}

// ---------------------------------------------------------------------------
// Sorting by name (stable insertion sort, mirrored at the spec level)
// ---------------------------------------------------------------------------
/// Inserts a pod into a name-descending sequence: after every pod whose name
/// is not lexicographically below, so equal names keep their order.
pub open spec fn insert_pod_desc(s: Seq<Pod>, p: Pod) -> Seq<Pod>
    decreases s.len(),
{
    if s.len() == 0 {
        seq![p]
    } else if seq_char_lt(s[0].name@, p.name@) {
        seq![p] + s
    } else {
        seq![s[0]] + insert_pod_desc(s.drop_first(), p)
    }
}

/// Stable sort of pods by name, descending.
pub open spec fn sort_pods_desc(s: Seq<Pod>) -> Seq<Pod>
    decreases s.len(),
{
    if s.len() == 0 {
        Seq::empty()
    } else {
        insert_pod_desc(sort_pods_desc(s.drop_last()), s.last())
    }
}

/// Inserts a node into a name-ascending sequence, after equal names.
pub open spec fn insert_node_asc(s: Seq<Node>, n: Node) -> Seq<Node>
    decreases s.len(),
{
    if s.len() == 0 {
        seq![n]
    } else if seq_char_lt(n.name@, s[0].name@) {
        seq![n] + s
    } else {
        seq![s[0]] + insert_node_asc(s.drop_first(), n)
    }
}

/// Stable sort of nodes by name, ascending.
pub open spec fn sort_nodes_asc(s: Seq<Node>) -> Seq<Node>
    decreases s.len(),
{
    if s.len() == 0 {
        Seq::empty()
    } else {
        insert_node_asc(sort_nodes_asc(s.drop_last()), s.last())
    }
}

/// The first `k` elements of a sequence, or all of them if it is shorter.
pub open spec fn take_up_to<A>(s: Seq<A>, k: int) -> Seq<A> {
    if k >= s.len() {
        s
    } else {
        s.take(k)
    }
}

/// The ids of a sequence of pods, in order.
pub open spec fn pod_ids(s: Seq<Pod>) -> Seq<u128>
    decreases s.len(),
{
    if s.len() == 0 {
        Seq::empty()
    } else {
        pod_ids(s.drop_last()).push(s.last().id)
    }
}

/// Pods kept by garbage collection: everything not `Terminated`, in order.
pub open spec fn gc_keep(pods: Seq<Pod>) -> Seq<Pod>
    decreases pods.len(),
{
    if pods.len() == 0 {
        Seq::empty()
    } else {
        gc_keep(pods.drop_last()) + if pods.last().status != PodStatus::Terminated {
            seq![pods.last()]
        } else {
            Seq::empty()
        }
    }
}

/// Every id kept by garbage collection was an id of the store.
pub proof fn lemma_gc_keep_ids(pods: Seq<Pod>)
    ensures
        forall|id: u128| has_pod(gc_keep(pods), id) ==> has_pod(pods, id),
    decreases pods.len(),
{
    if pods.len() > 0 {
        let dl = pods.drop_last();
        lemma_gc_keep_ids(dl);
        let g = gc_keep(pods);
        let gd = gc_keep(dl);
        assert forall|id: u128| has_pod(g, id) implies has_pod(pods, id) by {
            let i = choose|i: int| 0 <= i < g.len() && g[i].id == id;
            if i < gd.len() {
                assert(g[i] == gd[i]);
                assert(0 <= i < gd.len() && gd[i].id == id);
                assert(has_pod(gd, id));
                assert(has_pod(dl, id));
                let j = choose|j: int| 0 <= j < dl.len() && dl[j].id == id;
                assert(dl[j] == pods[j]);
                assert(0 <= j < pods.len() && pods[j].id == id);
            } else {
                assert(g[i] == pods.last());
                assert(0 <= pods.len() - 1 < pods.len() && pods[pods.len() - 1].id == id);
            }
        }
    }
}

/// Garbage collection keeps a subset of the pods, so it keeps ids unique.
pub proof fn lemma_gc_keep_wf(pods: Seq<Pod>)
    requires
        pod_ids_unique(pods),
    ensures
        pod_ids_unique(gc_keep(pods)),
    decreases pods.len(),
{
    if pods.len() > 0 {
        let dl = pods.drop_last();
        assert forall|i: int, j: int| 0 <= i < j < dl.len() implies dl[i].id != dl[j].id by {
            assert(dl[i] == pods[i]);
            assert(dl[j] == pods[j]);
        }
        lemma_gc_keep_wf(dl);
        lemma_gc_keep_ids(dl);
        let g = gc_keep(pods);
        let gd = gc_keep(dl);
        assert forall|i: int, j: int| 0 <= i < j < g.len() implies g[i].id != g[j].id by {
            if j < gd.len() {
                assert(g[i] == gd[i]);
                assert(g[j] == gd[j]);
            } else {
                // The last store pod was kept; everything before it in the
                // result comes from the earlier pods, whose ids differ.
                assert(g[j] == pods.last());
                assert(g[i] == gd[i]);
                if g[i].id == g[j].id {
                    assert(0 <= i < gd.len() && gd[i].id == g[j].id);
                    assert(has_pod(gd, g[j].id));
                    assert(has_pod(dl, g[j].id));
                    let k = choose|k: int| 0 <= k < dl.len() && dl[k].id == g[j].id;
                    assert(dl[k] == pods[k]);
                    assert(pods[k].id != pods[pods.len() - 1].id);
                }
            }
        }
    }
}

// ---------------------------------------------------------------------------
// Placement of an insertion-sort step
// ---------------------------------------------------------------------------
/// Inserting a pod at the first position whose name is strictly below the
/// new pod's name is exactly the spec-level insertion.
proof fn lemma_insert_pod_desc_split(s: Seq<Pod>, p: Pod, j: int)
    requires
        0 <= j <= s.len(),
        forall|k: int| 0 <= k < j ==> !seq_char_lt(s[k].name@, p.name@),
        j < s.len() ==> seq_char_lt(s[j].name@, p.name@),
    ensures
        insert_pod_desc(s, p) == s.take(j) + seq![p] + s.skip(j),
    decreases j,
{
    if j == 0 {
        if s.len() == 0 {
            assert(insert_pod_desc(s, p) =~= s.take(0) + seq![p] + s.skip(0));
        } else {
            assert(insert_pod_desc(s, p) =~= s.take(0) + seq![p] + s.skip(0));
        }
    } else {
        let t = s.drop_first();
        assert(forall|k: int| 0 <= k < j - 1 ==> t[k] == s[k + 1]);
        assert(j - 1 < t.len() ==> t[j - 1] == s[j]);
        lemma_insert_pod_desc_split(t, p, j - 1);
        assert(!seq_char_lt(s[0].name@, p.name@));
        assert(insert_pod_desc(s, p) == seq![s[0]] + insert_pod_desc(t, p));
        assert(insert_pod_desc(s, p) =~= s.take(j) + seq![p] + s.skip(j));
    }
}

/// The same placement fact for nodes, ascending by name.
proof fn lemma_insert_node_asc_split(s: Seq<Node>, n: Node, j: int)
    requires
        0 <= j <= s.len(),
        forall|k: int| 0 <= k < j ==> !seq_char_lt(n.name@, s[k].name@),
        j < s.len() ==> seq_char_lt(n.name@, s[j].name@),
    ensures
        insert_node_asc(s, n) == s.take(j) + seq![n] + s.skip(j),
    decreases j,
{
    if j == 0 {
        assert(insert_node_asc(s, n) =~= s.take(0) + seq![n] + s.skip(0));
    } else {
        let t = s.drop_first();
        assert(forall|k: int| 0 <= k < j - 1 ==> t[k] == s[k + 1]);
        assert(j - 1 < t.len() ==> t[j - 1] == s[j]);
        lemma_insert_node_asc_split(t, n, j - 1);
        assert(!seq_char_lt(n.name@, s[0].name@));
        assert(insert_node_asc(s, n) == seq![s[0]] + insert_node_asc(t, n));
        assert(insert_node_asc(s, n) =~= s.take(j) + seq![n] + s.skip(j));
    }
}

/// Stable insertion sort of pods by name, descending.
pub fn sort_pods_by_name_desc(v: &Vec<Pod>) -> (r: Vec<Pod>)
    ensures
        r@ == sort_pods_desc(v@),
{
    let n = v.len();
    let mut r: Vec<Pod> = Vec::new();
    let mut i: usize = 0;
    while i < n
        invariant
            i <= n,
            n == v@.len(),
            r@ == sort_pods_desc(v@.take(i as int)),
        decreases n - i,
    {
        let p = v[i].clone();
        let mut j: usize = 0;
        while j < r.len() && !str_lt(r[j].name.as_str(), p.name.as_str())
            invariant
                j <= r@.len(),
                forall|k: int| 0 <= k < j ==> !seq_char_lt(r@[k].name@, p.name@),
            decreases r@.len() - j,
        {
            j = j + 1;
        }
        proof {
            lemma_insert_pod_desc_split(r@, p, j as int);
            assert(v@.take(i + 1).drop_last() =~= v@.take(i as int));
            assert(v@.take(i + 1).last() == v@[i as int]);
        }
        r.insert(j, p);
        proof {
            assert(r@ =~= sort_pods_desc(v@.take(i + 1)));
        }
        i = i + 1;
    }
    proof {
        assert(v@.take(n as int) =~= v@);
    }
    r
}

/// Stable insertion sort of nodes by name, ascending.
pub fn sort_nodes_by_name_asc(v: &Vec<Node>) -> (r: Vec<Node>)
    ensures
        r@ == sort_nodes_asc(v@),
{
    let n = v.len();
    let mut r: Vec<Node> = Vec::new();
    let mut i: usize = 0;
    while i < n
        invariant
            i <= n,
            n == v@.len(),
            r@ == sort_nodes_asc(v@.take(i as int)),
        decreases n - i,
    {
        let nd = v[i].clone();
        let mut j: usize = 0;
        while j < r.len() && !str_lt(nd.name.as_str(), r[j].name.as_str())
            invariant
                j <= r@.len(),
                forall|k: int| 0 <= k < j ==> !seq_char_lt(nd.name@, r@[k].name@),
            decreases r@.len() - j,
        {
            j = j + 1;
        }
        proof {
            lemma_insert_node_asc_split(r@, nd, j as int);
            assert(v@.take(i + 1).drop_last() =~= v@.take(i as int));
            assert(v@.take(i + 1).last() == v@[i as int]);
        }
        r.insert(j, nd);
        proof {
            assert(r@ =~= sort_nodes_asc(v@.take(i + 1)));
        }
        i = i + 1;
    }
    proof {
        assert(v@.take(n as int) =~= v@);
    }
    r
}

// ---------------------------------------------------------------------------
// Field updates, as spec-level functions
// ---------------------------------------------------------------------------
/// A pod with its status replaced.
pub open spec fn pod_with_status(p: Pod, s: PodStatus) -> Pod {
    Pod { status: s, ..p }
}

/// A pod bound to a node.
pub open spec fn pod_with_node(p: Pod, node_name: String) -> Pod {
    Pod { node_name: Some(node_name), ..p }
}

/// A pod updated from one heartbeat report: the reported status and
/// container id are copied, unless the master already considers the pod
/// terminating or terminated, which a report never overrides.
pub open spec fn pod_after_report(p: Pod, r: crate::models::PodStatusReport) -> Pod {
    if p.status != PodStatus::Terminated && p.status != PodStatus::Terminating {
        let p1 = Pod { status: r.status, ..p };
        match r.container_id {
            Some(c) => Pod { container_id: Some(c), ..p1 },
            None => p1,
        }
    } else {
        p
    }
}

/// A node with its status replaced.
pub open spec fn node_with_status(n: Node, s: NodeStatus) -> Node {
    Node { status: s, ..n }
}

/// A node refreshed by a heartbeat: `Ready`, with the heartbeat instant.
pub open spec fn node_after_heartbeat(n: Node, now_ms: i64) -> Node {
    Node { status: NodeStatus::Ready, last_heartbeat: now_ms, ..n }
}

/// A node with its observed usage replaced.
pub open spec fn node_with_used(n: Node, used: Resources) -> Node {
    Node { used, ..n }
}

/// A node after committing a reservation: usage grows by the request.
/// Callers only apply this under `spec_node_can_fit`, where no truncation
/// occurs.
pub open spec fn node_alloc(n: Node, r: Resources) -> Node {
    node_with_used(
        n,
        Resources {
            cpu_millis: (n.used.cpu_millis + r.cpu_millis) as u32,
            memory_mb: (n.used.memory_mb + r.memory_mb) as u32,
        },
    )
}

/// The node records after committing a reservation: the named node's usage
/// grows if it is present and the request fits; otherwise nothing changes.
pub open spec fn nodes_after_alloc(nodes: Seq<Node>, name: Seq<char>, r: Resources) -> Seq<Node> {
    if has_node(nodes, name) && spec_node_can_fit(the_node(nodes, name), r) {
        update_node(nodes, name, node_alloc(the_node(nodes, name), r))
    } else {
        nodes
    }
}

/// The node records after releasing a reservation on the named node.
pub open spec fn nodes_after_dealloc(nodes: Seq<Node>, name: Seq<char>, r: Resources) -> Seq<
    Node,
> {
    if has_node(nodes, name) {
        update_node(nodes, name, node_dealloc(the_node(nodes, name), r))
    } else {
        nodes
    }
}

/// A node after releasing a reservation: usage shrinks, saturating at zero.
pub open spec fn node_dealloc(n: Node, r: Resources) -> Node {
    node_with_used(
        n,
        Resources {
            cpu_millis: sat_sub(n.used.cpu_millis as int, r.cpu_millis as int) as u32,
            memory_mb: sat_sub(n.used.memory_mb as int, r.memory_mb as int) as u32,
        },
    )
}

// ---------------------------------------------------------------------------
// Bounds on the counts
// ---------------------------------------------------------------------------
pub proof fn lemma_count_active_bounds(pods: Seq<Pod>, d: Seq<char>)
    ensures
        0 <= count_active(pods, d) <= pods.len(),
    decreases pods.len(),
{
    if pods.len() > 0 {
        lemma_count_active_bounds(pods.drop_last(), d);
    }
}

pub proof fn lemma_count_running_bounds(pods: Seq<Pod>, d: Seq<char>)
    ensures
        0 <= count_running(pods, d) <= pods.len(),
    decreases pods.len(),
{
    if pods.len() > 0 {
        lemma_count_running_bounds(pods.drop_last(), d);
    }
}

pub proof fn lemma_count_active_rev_bounds(pods: Seq<Pod>, d: Seq<char>, rev: u64)
    ensures
        0 <= count_active_rev(pods, d, rev) <= pods.len(),
    decreases pods.len(),
{
    if pods.len() > 0 {
        lemma_count_active_rev_bounds(pods.drop_last(), d, rev);
    }
}

pub proof fn lemma_count_running_rev_bounds(pods: Seq<Pod>, d: Seq<char>, rev: u64)
    ensures
        0 <= count_running_rev(pods, d, rev) <= pods.len(),
    decreases pods.len(),
{
    if pods.len() > 0 {
        lemma_count_running_rev_bounds(pods.drop_last(), d, rev);
    }
}

// ---------------------------------------------------------------------------
// The store
// ---------------------------------------------------------------------------
/// The single in-memory authoritative record set.
#[derive(Debug)]
pub struct Store {
    pub deployments: Vec<Deployment>,
    pub pods: Vec<Pod>,
    pub nodes: Vec<Node>,
}

impl Store {
    /// Keys are unique: deployment names, pod ids, node names.
    pub open spec fn wf(self) -> bool {
        dep_names_unique(self.deployments@) && pod_ids_unique(self.pods@) && node_names_unique(
            self.nodes@,
        )
    }

    /// An empty store.
    pub fn new() -> (s: Store)
        ensures
            s.deployments@.len() == 0,
            s.pods@.len() == 0,
            s.nodes@.len() == 0,
            s.wf(),
    {
        Store { deployments: Vec::new(), pods: Vec::new(), nodes: Vec::new() }
    }

    // -- deployments --------------------------------------------------------
    /// Adds a deployment, or replaces the one with the same name.
    pub fn upsert_deployment(&mut self, deployment: Deployment)
        requires
            old(self).wf(),
        ensures
            final(self).wf(),
            final(self).pods@ == old(self).pods@,
            final(self).nodes@ == old(self).nodes@,
            final(self).deployments@ == upsert_dep(old(self).deployments@, deployment),
    {
        let n = self.deployments.len();
        let mut i: usize = 0;
        while i < n
            invariant
                n == self.deployments@.len(),
                i <= n,
                forall|j: int| 0 <= j < i ==> self.deployments@[j].name@ != deployment.name@,
                self.wf(),
                self.deployments@ == old(self).deployments@,
                self.pods@ == old(self).pods@,
                self.nodes@ == old(self).nodes@,
            decreases n - i,
        {
            if str_eq(self.deployments[i].name.as_str(), deployment.name.as_str()) {
                self.deployments.set(i, deployment);
                return ;
            }
            i = i + 1;
        }
        self.deployments.push(deployment);
    }

    /// Looks a deployment up by name.
    pub fn get_deployment(&self, name: &str) -> (r: Option<&Deployment>)
        requires
            self.wf(),
        ensures
            match r {
                Some(d) => has_deployment(self.deployments@, name@) && *d == the_dep(
                    self.deployments@,
                    name@,
                ),
                None => !has_deployment(self.deployments@, name@),
            },
    {
        let n = self.deployments.len();
        let mut i: usize = 0;
        while i < n
            invariant
                n == self.deployments@.len(),
                i <= n,
                forall|j: int| 0 <= j < i ==> self.deployments@[j].name@ != name@,
                self.wf(),
            decreases n - i,
        {
            if str_eq(self.deployments[i].name.as_str(), name) {
                proof {
                    lemma_dep_idx_of(self.deployments@, name@, i as int);
                }
                return Some(&self.deployments[i]);
            }
            i = i + 1;
        }
        None
    }

    /// All deployments, in store order.
    pub fn list_deployments(&self) -> (r: Vec<Deployment>)
        ensures
            r@ == self.deployments@,
    {
        let n = self.deployments.len();
        let mut r: Vec<Deployment> = Vec::new();
        let mut i: usize = 0;
        while i < n
            invariant
                n == self.deployments@.len(),
                i <= n,
                r@ == self.deployments@.take(i as int),
            decreases n - i,
        {
            r.push(self.deployments[i].clone());
            proof {
                assert(r@ =~= self.deployments@.take(i + 1));
            }
            i = i + 1;
        }
        proof {
            assert(self.deployments@.take(n as int) =~= self.deployments@);
        }
        r
    }

    /// Removes a deployment by name; returns it, or `None` if absent.
    pub fn delete_deployment(&mut self, name: &str) -> (r: Option<Deployment>)
        requires
            old(self).wf(),
        ensures
            final(self).wf(),
            final(self).pods@ == old(self).pods@,
            final(self).nodes@ == old(self).nodes@,
            r == if has_deployment(old(self).deployments@, name@) {
                Some(the_dep(old(self).deployments@, name@))
            } else {
                None
            },
            final(self).deployments@ == remove_dep(old(self).deployments@, name@),
    {
        let n = self.deployments.len();
        let mut i: usize = 0;
        while i < n
            invariant
                n == self.deployments@.len(),
                i <= n,
                forall|j: int| 0 <= j < i ==> self.deployments@[j].name@ != name@,
                self.wf(),
                self == old(self),
            decreases n - i,
        {
            if str_eq(self.deployments[i].name.as_str(), name) {
                let d = self.deployments.remove(i);
                return Some(d);
            }
            i = i + 1;
        }
        None
    }

    // -- nodes --------------------------------------------------------------
    /// Adds a node, or replaces the one with the same name.
    pub fn register_node(&mut self, node: Node)
        requires
            old(self).wf(),
        ensures
            final(self).wf(),
            final(self).pods@ == old(self).pods@,
            final(self).deployments@ == old(self).deployments@,
            final(self).nodes@ == upsert_node(old(self).nodes@, node),
    {
        let n = self.nodes.len();
        let mut i: usize = 0;
        while i < n
            invariant
                n == self.nodes@.len(),
                i <= n,
                forall|j: int| 0 <= j < i ==> self.nodes@[j].name@ != node.name@,
                self.wf(),
                self == old(self),
            decreases n - i,
        {
            if str_eq(self.nodes[i].name.as_str(), node.name.as_str()) {
                self.nodes.set(i, node);
                return ;
            }
            i = i + 1;
        }
        self.nodes.push(node);
    }

    /// Looks a node up by name.
    pub fn get_node(&self, name: &str) -> (r: Option<&Node>)
        requires
            self.wf(),
        ensures
            match r {
                Some(nd) => has_node(self.nodes@, name@) && *nd == the_node(self.nodes@, name@),
                None => !has_node(self.nodes@, name@),
            },
    {
        let n = self.nodes.len();
        let mut i: usize = 0;
        while i < n
            invariant
                n == self.nodes@.len(),
                i <= n,
                forall|j: int| 0 <= j < i ==> self.nodes@[j].name@ != name@,
                self.wf(),
            decreases n - i,
        {
            if str_eq(self.nodes[i].name.as_str(), name) {
                proof {
                    lemma_node_idx_of(self.nodes@, name@, i as int);
                }
                return Some(&self.nodes[i]);
            }
            i = i + 1;
        }
        None
    }

    /// All nodes, in store order.
    pub fn list_nodes(&self) -> (r: Vec<Node>)
        ensures
            r@ == self.nodes@,
    {
        let n = self.nodes.len();
        let mut r: Vec<Node> = Vec::new();
        let mut i: usize = 0;
        while i < n
            invariant
                n == self.nodes@.len(),
                i <= n,
                r@ == self.nodes@.take(i as int),
            decreases n - i,
        {
            r.push(self.nodes[i].clone());
            proof {
                assert(r@ =~= self.nodes@.take(i + 1));
            }
            i = i + 1;
        }
        proof {
            assert(self.nodes@.take(n as int) =~= self.nodes@);
        }
        r
    }

    /// Removes a node by name; returns it, or `None` if absent.
    pub fn delete_node(&mut self, name: &str) -> (r: Option<Node>)
        requires
            old(self).wf(),
        ensures
            final(self).wf(),
            final(self).pods@ == old(self).pods@,
            final(self).deployments@ == old(self).deployments@,
            r == if has_node(old(self).nodes@, name@) {
                Some(the_node(old(self).nodes@, name@))
            } else {
                None
            },
            final(self).nodes@ == remove_node(old(self).nodes@, name@),
    {
        let n = self.nodes.len();
        let mut i: usize = 0;
        while i < n
            invariant
                n == self.nodes@.len(),
                i <= n,
                forall|j: int| 0 <= j < i ==> self.nodes@[j].name@ != name@,
                self.wf(),
                self == old(self),
            decreases n - i,
        {
            if str_eq(self.nodes[i].name.as_str(), name) {
                let nd = self.nodes.remove(i);
                return Some(nd);
            }
            i = i + 1;
        }
        None
    }

    // -- pods ---------------------------------------------------------------
    /// Adds a pod, or replaces the one with the same id.
    pub fn add_pod(&mut self, pod: Pod)
        requires
            old(self).wf(),
        ensures
            final(self).wf(),
            final(self).deployments@ == old(self).deployments@,
            final(self).nodes@ == old(self).nodes@,
            final(self).pods@ == upsert_pod(old(self).pods@, pod),
    {
        let n = self.pods.len();
        let mut i: usize = 0;
        while i < n
            invariant
                n == self.pods@.len(),
                i <= n,
                forall|j: int| 0 <= j < i ==> self.pods@[j].id != pod.id,
                self.wf(),
                self == old(self),
            decreases n - i,
        {
            if self.pods[i].id == pod.id {
                self.pods.set(i, pod);
                return ;
            }
            i = i + 1;
        }
        self.pods.push(pod);
    }

    /// Looks a pod up by id.
    pub fn get_pod(&self, id: u128) -> (r: Option<&Pod>)
        requires
            self.wf(),
        ensures
            match r {
                Some(p) => has_pod(self.pods@, id) && *p == the_pod(self.pods@, id),
                None => !has_pod(self.pods@, id),
            },
    {
        let n = self.pods.len();
        let mut i: usize = 0;
        while i < n
            invariant
                n == self.pods@.len(),
                i <= n,
                forall|j: int| 0 <= j < i ==> self.pods@[j].id != id,
                self.wf(),
            decreases n - i,
        {
            if self.pods[i].id == id {
                proof {
                    lemma_pod_idx_of(self.pods@, id, i as int);
                }
                return Some(&self.pods[i]);
            }
            i = i + 1;
        }
        None
    }

    /// All pods, in store order.
    pub fn list_pods(&self) -> (r: Vec<Pod>)
        ensures
            r@ == self.pods@,
    {
        let n = self.pods.len();
        let mut r: Vec<Pod> = Vec::new();
        let mut i: usize = 0;
        while i < n
            invariant
                n == self.pods@.len(),
                i <= n,
                r@ == self.pods@.take(i as int),
            decreases n - i,
        {
            r.push(self.pods[i].clone());
            proof {
                assert(r@ =~= self.pods@.take(i + 1));
            }
            i = i + 1;
        }
        proof {
            assert(self.pods@.take(n as int) =~= self.pods@);
        }
        r
    }

    /// The pods of one deployment, in store order.
    pub fn list_pods_for_deployment(&self, deployment_name: &str) -> (r: Vec<Pod>)
        ensures
            r@ == filter_deployment_pods(self.pods@, deployment_name@),
    {
        let n = self.pods.len();
        let mut r: Vec<Pod> = Vec::new();
        let mut i: usize = 0;
        while i < n
            invariant
                n == self.pods@.len(),
                i <= n,
                r@ == filter_deployment_pods(self.pods@.take(i as int), deployment_name@),
            decreases n - i,
        {
            let p = &self.pods[i];
            let matches = match &p.deployment_name {
                Some(dn) => str_eq(dn.as_str(), deployment_name),
                None => false,
            };
            if matches {
                r.push(p.clone());
            }
            proof {
                assert(self.pods@.take(i + 1).drop_last() =~= self.pods@.take(i as int));
                assert(self.pods@.take(i + 1).last() == self.pods@[i as int]);
            }
            i = i + 1;
        }
        proof {
            assert(self.pods@.take(n as int) =~= self.pods@);
        }
        r
    }

    /// Removes a pod by id; returns it, or `None` if absent.
    pub fn delete_pod(&mut self, id: u128) -> (r: Option<Pod>)
        requires
            old(self).wf(),
        ensures
            final(self).wf(),
            final(self).deployments@ == old(self).deployments@,
            final(self).nodes@ == old(self).nodes@,
            r == if has_pod(old(self).pods@, id) {
                Some(the_pod(old(self).pods@, id))
            } else {
                None
            },
            final(self).pods@ == remove_pod(old(self).pods@, id),
    {
        let n = self.pods.len();
        let mut i: usize = 0;
        while i < n
            invariant
                n == self.pods@.len(),
                i <= n,
                forall|j: int| 0 <= j < i ==> self.pods@[j].id != id,
                self.wf(),
                self == old(self),
            decreases n - i,
        {
            if self.pods[i].id == id {
                let p = self.pods.remove(i);
                return Some(p);
            }
            i = i + 1;
        }
        None
    }

    /// Sets the status of a pod; returns whether the pod exists.
    pub fn update_pod_status(&mut self, id: u128, status: PodStatus) -> (r: bool)
        requires
            old(self).wf(),
        ensures
            final(self).wf(),
            final(self).deployments@ == old(self).deployments@,
            final(self).nodes@ == old(self).nodes@,
            r == has_pod(old(self).pods@, id),
            final(self).pods@ == update_pod(
                old(self).pods@,
                id,
                pod_with_status(the_pod(old(self).pods@, id), status),
            ),
    {
        let n = self.pods.len();
        let mut i: usize = 0;
        while i < n
            invariant
                n == self.pods@.len(),
                i <= n,
                forall|j: int| 0 <= j < i ==> self.pods@[j].id != id,
                self.wf(),
                self == old(self),
            decreases n - i,
        {
            if self.pods[i].id == id {
                let mut p = self.pods[i].clone();
                p.status = status;
                self.pods.set(i, p);
                return true;
            }
            i = i + 1;
        }
        false
    }

    /// Binds a pod to a node; returns whether the pod exists.
    pub fn assign_pod_to_node(&mut self, pod_id: u128, node_name: String) -> (r: bool)
        requires
            old(self).wf(),
        ensures
            final(self).wf(),
            final(self).deployments@ == old(self).deployments@,
            final(self).nodes@ == old(self).nodes@,
            r == has_pod(old(self).pods@, pod_id),
            final(self).pods@ == update_pod(
                old(self).pods@,
                pod_id,
                pod_with_node(the_pod(old(self).pods@, pod_id), node_name),
            ),
    {
        let n = self.pods.len();
        let mut i: usize = 0;
        while i < n
            invariant
                n == self.pods@.len(),
                i <= n,
                forall|j: int| 0 <= j < i ==> self.pods@[j].id != pod_id,
                self.wf(),
                self == old(self),
            decreases n - i,
        {
            if self.pods[i].id == pod_id {
                let mut p = self.pods[i].clone();
                p.node_name = Some(node_name);
                self.pods.set(i, p);
                return true;
            }
            i = i + 1;
        }
        false
    }

    /// Applies one heartbeat report to the pod it names, if the master knows
    /// that pod.
    pub fn apply_pod_report(&mut self, report: &crate::models::PodStatusReport)
        requires
            old(self).wf(),
        ensures
            final(self).wf(),
            final(self).deployments@ == old(self).deployments@,
            final(self).nodes@ == old(self).nodes@,
            final(self).pods@ == update_pod(
                old(self).pods@,
                report.pod_id,
                pod_after_report(the_pod(old(self).pods@, report.pod_id), *report),
            ),
    {
        let n = self.pods.len();
        let mut i: usize = 0;
        while i < n
            invariant
                n == self.pods@.len(),
                i <= n,
                forall|j: int| 0 <= j < i ==> self.pods@[j].id != report.pod_id,
                self.wf(),
                self == old(self),
            decreases n - i,
        {
            if self.pods[i].id == report.pod_id {
                let mut p = self.pods[i].clone();
                if p.status != PodStatus::Terminated && p.status != PodStatus::Terminating {
                    p.status = report.status;
                    if let Some(c) = &report.container_id {
                        p.container_id = Some(c.clone());
                    }
                }
                self.pods.set(i, p);
                return ;
            }
            i = i + 1;
        }
    }

    // -- counting queries ---------------------------------------------------
    /// How many pods of a deployment are running.
    pub fn count_running_pods_for_deployment(&self, deployment_name: &str) -> (r: u32)
        requires
            self.pods@.len() <= u32::MAX as int,
        ensures
            r == count_running(self.pods@, deployment_name@),
    {
        proof {
            lemma_count_running_bounds(self.pods@, deployment_name@);
        }
        let n = self.pods.len();
        let mut c: u32 = 0;
        let mut i: usize = 0;
        while i < n
            invariant
                n == self.pods@.len(),
                n <= u32::MAX as int,
                i <= n,
                c == count_running(self.pods@.take(i as int), deployment_name@),
                c <= i,
            decreases n - i,
        {
            proof {
                assert(self.pods@.take(i + 1).drop_last() =~= self.pods@.take(i as int));
                assert(self.pods@.take(i + 1).last() == self.pods@[i as int]);
            }
            let p = &self.pods[i];
            let matches = match &p.deployment_name {
                Some(dn) => str_eq(dn.as_str(), deployment_name),
                None => false,
            };
            if matches && p.status == PodStatus::Running {
                c = c + 1;
            }
            i = i + 1;
        }
        proof {
            assert(self.pods@.take(n as int) =~= self.pods@);
        }
        c
    }

    /// How many pods of a deployment count toward its replicas.
    pub fn count_active_pods_for_deployment(&self, deployment_name: &str) -> (r: u32)
        requires
            self.pods@.len() <= u32::MAX as int,
        ensures
            r == count_active(self.pods@, deployment_name@),
    {
        proof {
            lemma_count_active_bounds(self.pods@, deployment_name@);
        }
        let n = self.pods.len();
        let mut c: u32 = 0;
        let mut i: usize = 0;
        while i < n
            invariant
                n == self.pods@.len(),
                n <= u32::MAX as int,
                i <= n,
                c == count_active(self.pods@.take(i as int), deployment_name@),
                c <= i,
            decreases n - i,
        {
            proof {
                assert(self.pods@.take(i + 1).drop_last() =~= self.pods@.take(i as int));
                assert(self.pods@.take(i + 1).last() == self.pods@[i as int]);
            }
            let p = &self.pods[i];
            let matches = match &p.deployment_name {
                Some(dn) => str_eq(dn.as_str(), deployment_name),
                None => false,
            };
            if matches && p.status != PodStatus::Terminated && p.status != PodStatus::Failed {
                c = c + 1;
            }
            i = i + 1;
        }
        proof {
            assert(self.pods@.take(n as int) =~= self.pods@);
        }
        c
    }

    /// How many pods of a deployment at one revision are running.
    pub fn count_running_pods_for_revision(&self, deployment_name: &str, revision: u64) -> (r: u32)
        requires
            self.pods@.len() <= u32::MAX as int,
        ensures
            r == count_running_rev(self.pods@, deployment_name@, revision),
    {
        proof {
            lemma_count_running_rev_bounds(self.pods@, deployment_name@, revision);
        }
        let n = self.pods.len();
        let mut c: u32 = 0;
        let mut i: usize = 0;
        while i < n
            invariant
                n == self.pods@.len(),
                n <= u32::MAX as int,
                i <= n,
                c == count_running_rev(self.pods@.take(i as int), deployment_name@, revision),
                c <= i,
            decreases n - i,
        {
            proof {
                assert(self.pods@.take(i + 1).drop_last() =~= self.pods@.take(i as int));
                assert(self.pods@.take(i + 1).last() == self.pods@[i as int]);
            }
            let p = &self.pods[i];
            let matches = match &p.deployment_name {
                Some(dn) => str_eq(dn.as_str(), deployment_name),
                None => false,
            };
            if matches && p.revision == revision && p.status == PodStatus::Running {
                c = c + 1;
            }
            i = i + 1;
        }
        proof {
            assert(self.pods@.take(n as int) =~= self.pods@);
        }
        c
    }

    /// How many active pods of a deployment carry one revision.
    pub fn count_active_pods_for_revision(&self, deployment_name: &str, revision: u64) -> (r: u32)
        requires
            self.pods@.len() <= u32::MAX as int,
        ensures
            r == count_active_rev(self.pods@, deployment_name@, revision),
    {
        proof {
            lemma_count_active_rev_bounds(self.pods@, deployment_name@, revision);
        }
        let n = self.pods.len();
        let mut c: u32 = 0;
        let mut i: usize = 0;
        while i < n
            invariant
                n == self.pods@.len(),
                n <= u32::MAX as int,
                i <= n,
                c == count_active_rev(self.pods@.take(i as int), deployment_name@, revision),
                c <= i,
            decreases n - i,
        {
            proof {
                assert(self.pods@.take(i + 1).drop_last() =~= self.pods@.take(i as int));
                assert(self.pods@.take(i + 1).last() == self.pods@[i as int]);
            }
            let p = &self.pods[i];
            let matches = match &p.deployment_name {
                Some(dn) => str_eq(dn.as_str(), deployment_name),
                None => false,
            };
            if matches && p.revision == revision && p.status != PodStatus::Terminated && p.status
                != PodStatus::Failed {
                c = c + 1;
            }
            i = i + 1;
        }
        proof {
            assert(self.pods@.take(n as int) =~= self.pods@);
        }
        c
    }

    // -- filtering queries --------------------------------------------------
    /// The active pods of a deployment left over from revisions before the
    /// current one, in store order.
    pub fn get_old_revision_pods(&self, deployment_name: &str, current_revision: u64) -> (r: Vec<
        Pod,
    >)
        ensures
            r@ == filter_old_rev(self.pods@, deployment_name@, current_revision),
    {
        let n = self.pods.len();
        let mut r: Vec<Pod> = Vec::new();
        let mut i: usize = 0;
        while i < n
            invariant
                n == self.pods@.len(),
                i <= n,
                r@ == filter_old_rev(self.pods@.take(i as int), deployment_name@, current_revision),
            decreases n - i,
        {
            proof {
                assert(self.pods@.take(i + 1).drop_last() =~= self.pods@.take(i as int));
                assert(self.pods@.take(i + 1).last() == self.pods@[i as int]);
            }
            let p = &self.pods[i];
            let matches = match &p.deployment_name {
                Some(dn) => str_eq(dn.as_str(), deployment_name),
                None => false,
            };
            if matches && p.revision < current_revision && p.status != PodStatus::Terminated
                && p.status != PodStatus::Failed {
                r.push(p.clone());
            }
            i = i + 1;
        }
        proof {
            assert(self.pods@.take(n as int) =~= self.pods@);
        }
        r
    }

    /// The pods awaiting placement, in store order.
    pub fn get_unassigned_pods(&self) -> (r: Vec<Pod>)
        ensures
            r@ == filter_unassigned(self.pods@),
    {
        let n = self.pods.len();
        let mut r: Vec<Pod> = Vec::new();
        let mut i: usize = 0;
        while i < n
            invariant
                n == self.pods@.len(),
                i <= n,
                r@ == filter_unassigned(self.pods@.take(i as int)),
            decreases n - i,
        {
            proof {
                assert(self.pods@.take(i + 1).drop_last() =~= self.pods@.take(i as int));
                assert(self.pods@.take(i + 1).last() == self.pods@[i as int]);
            }
            let p = &self.pods[i];
            if p.node_name.is_none() && (p.status == PodStatus::Pending || p.status
                == PodStatus::Creating) {
                r.push(p.clone());
            }
            i = i + 1;
        }
        proof {
            assert(self.pods@.take(n as int) =~= self.pods@);
        }
        r
    }

    /// Ids of up to `count` termination candidates of a deployment, newest
    /// index first (name descending).
    pub fn get_pods_to_terminate(&self, deployment_name: &str, count: u32) -> (r: Vec<u128>)
        ensures
            r@ == pod_ids(
                take_up_to(
                    sort_pods_desc(filter_terminable(self.pods@, deployment_name@)),
                    count as int,
                ),
            ),
    {
        let n = self.pods.len();
        let mut f: Vec<Pod> = Vec::new();
        let mut i: usize = 0;
        while i < n
            invariant
                n == self.pods@.len(),
                i <= n,
                f@ == filter_terminable(self.pods@.take(i as int), deployment_name@),
            decreases n - i,
        {
            proof {
                assert(self.pods@.take(i + 1).drop_last() =~= self.pods@.take(i as int));
                assert(self.pods@.take(i + 1).last() == self.pods@[i as int]);
            }
            let p = &self.pods[i];
            let matches = match &p.deployment_name {
                Some(dn) => str_eq(dn.as_str(), deployment_name),
                None => false,
            };
            if matches && p.status != PodStatus::Terminated && p.status != PodStatus::Terminating
                && p.status != PodStatus::Failed {
                f.push(p.clone());
            }
            i = i + 1;
        }
        proof {
            assert(self.pods@.take(n as int) =~= self.pods@);
        }
        let sorted = sort_pods_by_name_desc(&f);
        take_pod_ids(&sorted, count)
    }

    /// Ids of up to `count` termination candidates of a deployment from
    /// revisions before the current one, newest index first.
    pub fn get_old_pods_to_terminate(
        &self,
        deployment_name: &str,
        current_revision: u64,
        count: u32,
    ) -> (r: Vec<u128>)
        ensures
            r@ == pod_ids(
                take_up_to(
                    sort_pods_desc(
                        filter_old_terminable(self.pods@, deployment_name@, current_revision),
                    ),
                    count as int,
                ),
            ),
    {
        let n = self.pods.len();
        let mut f: Vec<Pod> = Vec::new();
        let mut i: usize = 0;
        while i < n
            invariant
                n == self.pods@.len(),
                i <= n,
                f@ == filter_old_terminable(
                    self.pods@.take(i as int),
                    deployment_name@,
                    current_revision,
                ),
            decreases n - i,
        {
            proof {
                assert(self.pods@.take(i + 1).drop_last() =~= self.pods@.take(i as int));
                assert(self.pods@.take(i + 1).last() == self.pods@[i as int]);
            }
            let p = &self.pods[i];
            let matches = match &p.deployment_name {
                Some(dn) => str_eq(dn.as_str(), deployment_name),
                None => false,
            };
            if matches && p.revision < current_revision && p.status != PodStatus::Terminated
                && p.status != PodStatus::Terminating && p.status != PodStatus::Failed {
                f.push(p.clone());
            }
            i = i + 1;
        }
        proof {
            assert(self.pods@.take(n as int) =~= self.pods@);
        }
        let sorted = sort_pods_by_name_desc(&f);
        take_pod_ids(&sorted, count)
    }

    /// Removes every `Terminated` pod.
    pub fn remove_terminated_pods(&mut self)
        requires
            old(self).wf(),
        ensures
            final(self).wf(),
            final(self).deployments@ == old(self).deployments@,
            final(self).nodes@ == old(self).nodes@,
            final(self).pods@ == gc_keep(old(self).pods@),
    {
        proof {
            lemma_gc_keep_wf(self.pods@);
        }
        let n = self.pods.len();
        let mut kept: Vec<Pod> = Vec::new();
        let mut i: usize = 0;
        while i < n
            invariant
                n == self.pods@.len(),
                i <= n,
                kept@ == gc_keep(self.pods@.take(i as int)),
                self == old(self),
            decreases n - i,
        {
            proof {
                assert(self.pods@.take(i + 1).drop_last() =~= self.pods@.take(i as int));
                assert(self.pods@.take(i + 1).last() == self.pods@[i as int]);
            }
            let p = &self.pods[i];
            if p.status != PodStatus::Terminated {
                kept.push(p.clone());
            }
            i = i + 1;
        }
        proof {
            assert(self.pods@.take(n as int) =~= self.pods@);
        }
        self.pods = kept;
    }

    // -- node bookkeeping ---------------------------------------------------
    /// Records a heartbeat: the node turns `Ready` with the given instant.
    /// Returns whether the node exists.
    pub fn update_node_heartbeat(&mut self, name: &str, now_ms: i64) -> (r: bool)
        requires
            old(self).wf(),
        ensures
            final(self).wf(),
            final(self).deployments@ == old(self).deployments@,
            final(self).pods@ == old(self).pods@,
            r == has_node(old(self).nodes@, name@),
            final(self).nodes@ == update_node(
                old(self).nodes@,
                name@,
                node_after_heartbeat(the_node(old(self).nodes@, name@), now_ms),
            ),
    {
        let n = self.nodes.len();
        let mut i: usize = 0;
        while i < n
            invariant
                n == self.nodes@.len(),
                i <= n,
                forall|j: int| 0 <= j < i ==> self.nodes@[j].name@ != name@,
                self.wf(),
                self == old(self),
            decreases n - i,
        {
            if str_eq(self.nodes[i].name.as_str(), name) {
                let mut nd = self.nodes[i].clone();
                nd.status = NodeStatus::Ready;
                nd.last_heartbeat = now_ms;
                self.nodes.set(i, nd);
                return true;
            }
            i = i + 1;
        }
        false
    }

    /// Sets the liveness status of a node. Returns whether the node exists.
    pub fn update_node_status(&mut self, name: &str, status: NodeStatus) -> (r: bool)
        requires
            old(self).wf(),
        ensures
            final(self).wf(),
            final(self).deployments@ == old(self).deployments@,
            final(self).pods@ == old(self).pods@,
            r == has_node(old(self).nodes@, name@),
            final(self).nodes@ == update_node(
                old(self).nodes@,
                name@,
                node_with_status(the_node(old(self).nodes@, name@), status),
            ),
    {
        let n = self.nodes.len();
        let mut i: usize = 0;
        while i < n
            invariant
                n == self.nodes@.len(),
                i <= n,
                forall|j: int| 0 <= j < i ==> self.nodes@[j].name@ != name@,
                self.wf(),
                self == old(self),
            decreases n - i,
        {
            if str_eq(self.nodes[i].name.as_str(), name) {
                let mut nd = self.nodes[i].clone();
                nd.status = status;
                self.nodes.set(i, nd);
                return true;
            }
            i = i + 1;
        }
        false
    }

    /// Overwrites a node's observed usage, as reported by its agent.
    /// Returns whether the node exists.
    pub fn update_node_resources(&mut self, name: &str, used: Resources) -> (r: bool)
        requires
            old(self).wf(),
        ensures
            final(self).wf(),
            final(self).deployments@ == old(self).deployments@,
            final(self).pods@ == old(self).pods@,
            r == has_node(old(self).nodes@, name@),
            final(self).nodes@ == update_node(
                old(self).nodes@,
                name@,
                node_with_used(the_node(old(self).nodes@, name@), used),
            ),
    {
        let n = self.nodes.len();
        let mut i: usize = 0;
        while i < n
            invariant
                n == self.nodes@.len(),
                i <= n,
                forall|j: int| 0 <= j < i ==> self.nodes@[j].name@ != name@,
                self.wf(),
                self == old(self),
            decreases n - i,
        {
            if str_eq(self.nodes[i].name.as_str(), name) {
                let mut nd = self.nodes[i].clone();
                nd.used = used;
                self.nodes.set(i, nd);
                return true;
            }
            i = i + 1;
        }
        false
    }

    /// The `Ready` nodes, sorted by name for deterministic iteration.
    pub fn get_ready_nodes(&self) -> (r: Vec<Node>)
        ensures
            r@ == sort_nodes_asc(filter_ready(self.nodes@)),
    {
        let n = self.nodes.len();
        let mut f: Vec<Node> = Vec::new();
        let mut i: usize = 0;
        while i < n
            invariant
                n == self.nodes@.len(),
                i <= n,
                f@ == filter_ready(self.nodes@.take(i as int)),
            decreases n - i,
        {
            proof {
                assert(self.nodes@.take(i + 1).drop_last() =~= self.nodes@.take(i as int));
                assert(self.nodes@.take(i + 1).last() == self.nodes@[i as int]);
            }
            let nd = &self.nodes[i];
            if nd.status == NodeStatus::Ready {
                f.push(nd.clone());
            }
            i = i + 1;
        }
        proof {
            assert(self.nodes@.take(n as int) =~= self.nodes@);
        }
        sort_nodes_by_name_asc(&f)
    }

    /// Commits a reservation on a node. Fails, changing nothing, if the node
    /// is absent or the request does not fit its remaining capacity.
    pub fn allocate_resources_on_node(&mut self, node_name: &str, resources: &Resources) -> (r:
        bool)
        requires
            old(self).wf(),
        ensures
            final(self).wf(),
            final(self).deployments@ == old(self).deployments@,
            final(self).pods@ == old(self).pods@,
            r == (has_node(old(self).nodes@, node_name@) && spec_node_can_fit(
                the_node(old(self).nodes@, node_name@),
                *resources,
            )),
            final(self).nodes@ == if r {
                update_node(
                    old(self).nodes@,
                    node_name@,
                    node_alloc(the_node(old(self).nodes@, node_name@), *resources),
                )
            } else {
                old(self).nodes@
            },
    {
        let n = self.nodes.len();
        let mut i: usize = 0;
        while i < n
            invariant
                n == self.nodes@.len(),
                i <= n,
                forall|j: int| 0 <= j < i ==> self.nodes@[j].name@ != node_name@,
                self.wf(),
                self == old(self),
            decreases n - i,
        {
            if str_eq(self.nodes[i].name.as_str(), node_name) {
                if !self.nodes[i].can_fit(resources) {
                    return false;
                }
                let mut nd = self.nodes[i].clone();
                nd.used.cpu_millis = nd.used.cpu_millis + resources.cpu_millis;
                nd.used.memory_mb = nd.used.memory_mb + resources.memory_mb;
                self.nodes.set(i, nd);
                return true;
            }
            i = i + 1;
        }
        false
    }

    /// Releases a reservation on a node, saturating at zero. Returns whether
    /// the node exists.
    pub fn deallocate_resources_on_node(&mut self, node_name: &str, resources: &Resources) -> (r:
        bool)
        requires
            old(self).wf(),
        ensures
            final(self).wf(),
            final(self).deployments@ == old(self).deployments@,
            final(self).pods@ == old(self).pods@,
            r == has_node(old(self).nodes@, node_name@),
            final(self).nodes@ == update_node(
                old(self).nodes@,
                node_name@,
                node_dealloc(the_node(old(self).nodes@, node_name@), *resources),
            ),
    {
        let n = self.nodes.len();
        let mut i: usize = 0;
        while i < n
            invariant
                n == self.nodes@.len(),
                i <= n,
                forall|j: int| 0 <= j < i ==> self.nodes@[j].name@ != node_name@,
                self.wf(),
                self == old(self),
            decreases n - i,
        {
            if str_eq(self.nodes[i].name.as_str(), node_name) {
                let mut nd = self.nodes[i].clone();
                nd.used.cpu_millis = if nd.used.cpu_millis >= resources.cpu_millis {
                    nd.used.cpu_millis - resources.cpu_millis
                } else {
                    0
                };
                nd.used.memory_mb = if nd.used.memory_mb >= resources.memory_mb {
                    nd.used.memory_mb - resources.memory_mb
                } else {
                    0
                };
                self.nodes.set(i, nd);
                return true;
            }
            i = i + 1;
        }
        false
    }
}

/// The ids of the first `count` pods of a sorted sequence.
fn take_pod_ids(sorted: &Vec<Pod>, count: u32) -> (r: Vec<u128>)
    ensures
        r@ == pod_ids(take_up_to(sorted@, count as int)),
{
    let lim: usize = if (count as usize) < sorted.len() {
        count as usize
    } else {
        sorted.len()
    };
    let mut r: Vec<u128> = Vec::new();
    let mut i: usize = 0;
    while i < lim
        invariant
            i <= lim,
            lim <= sorted@.len(),
            r@ == pod_ids(sorted@.take(i as int)),
        decreases lim - i,
    {
        proof {
            assert(sorted@.take(i + 1).drop_last() =~= sorted@.take(i as int));
            assert(sorted@.take(i + 1).last() == sorted@[i as int]);
        }
        r.push(sorted[i].id);
        i = i + 1;
    }
    proof {
        if count as int >= sorted@.len() {
            assert(sorted@.take(lim as int) =~= sorted@);
        }
        assert(r@ == pod_ids(take_up_to(sorted@, count as int)));
    }
    r
}

} // verus!
