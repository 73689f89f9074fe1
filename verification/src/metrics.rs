//! Aggregations behind the metrics endpoint: pods by status, nodes by
//! status, and cluster-wide resource totals. Exporting them into a metrics
//! registry happens outside the library.

use vstd::prelude::*;

use crate::models::{Node, NodeStatus, Pod, PodStatus};
use crate::store::Store;

verus! {

/// Pods carrying one status.
pub open spec fn count_pods_with_status(pods: Seq<Pod>, status: PodStatus) -> int
    decreases pods.len(),
{
    if pods.len() == 0 {
        0
    } else {
        count_pods_with_status(pods.drop_last(), status) + if pods.last().status == status {
            1int
        } else {
            0int
        }
    }
}

/// Nodes carrying one status.
pub open spec fn count_nodes_with_status(nodes: Seq<Node>, status: NodeStatus) -> int
    decreases nodes.len(),
{
    if nodes.len() == 0 {
        0
    } else {
        count_nodes_with_status(nodes.drop_last(), status) + if nodes.last().status == status {
            1int
        } else {
            0int
        }
    }
}

/// Summed CPU capacity of all nodes, in millicores.
pub open spec fn total_cpu_capacity(nodes: Seq<Node>) -> int
    decreases nodes.len(),
{
    if nodes.len() == 0 {
        0
    } else {
        total_cpu_capacity(nodes.drop_last()) + nodes.last().capacity.cpu_millis as int
    }
}

/// Summed CPU usage of all nodes, in millicores.
pub open spec fn total_cpu_used(nodes: Seq<Node>) -> int
    decreases nodes.len(),
{
    if nodes.len() == 0 {
        0
    } else {
        total_cpu_used(nodes.drop_last()) + nodes.last().used.cpu_millis as int
    }
}

/// Summed memory capacity of all nodes, in megabytes.
pub open spec fn total_memory_capacity(nodes: Seq<Node>) -> int
    decreases nodes.len(),
{
    if nodes.len() == 0 {
        0
    } else {
        total_memory_capacity(nodes.drop_last()) + nodes.last().capacity.memory_mb as int
    }
}

/// Summed memory usage of all nodes, in megabytes.
pub open spec fn total_memory_used(nodes: Seq<Node>) -> int
    decreases nodes.len(),
{
    if nodes.len() == 0 {
        0
    } else {
        total_memory_used(nodes.drop_last()) + nodes.last().used.memory_mb as int
    }
}

/// How many pods the cluster holds in each lifecycle state.
#[derive(Debug, Clone, Copy, PartialEq, Eq, Structural)]
pub struct PodStatusCounts {
    pub pending: u64,
    pub creating: u64,
    pub running: u64,
    pub succeeded: u64,
    pub failed: u64,
    pub terminating: u64,
    pub terminated: u64,
}

/// How many nodes the cluster holds in each liveness state.
#[derive(Debug, Clone, Copy, PartialEq, Eq, Structural)]
pub struct NodeStatusCounts {
    pub unknown: u64,
    pub ready: u64,
    pub not_ready: u64,
}

/// Cluster-wide resource totals over all nodes.
#[derive(Debug, Clone, Copy, PartialEq, Eq, Structural)]
pub struct ClusterResourceTotals {
    pub cpu_capacity: u64,
    pub cpu_used: u64,
    pub memory_capacity: u64,
    pub memory_used: u64,
}

/// Counts the pods in every lifecycle state in one pass.
pub fn pods_by_status(store: &Store) -> (r: PodStatusCounts)
    requires
        store.pods@.len() <= u32::MAX as int,
    ensures
        r.pending == count_pods_with_status(store.pods@, PodStatus::Pending),
        r.creating == count_pods_with_status(store.pods@, PodStatus::Creating),
        r.running == count_pods_with_status(store.pods@, PodStatus::Running),
        r.succeeded == count_pods_with_status(store.pods@, PodStatus::Succeeded),
        r.failed == count_pods_with_status(store.pods@, PodStatus::Failed),
        r.terminating == count_pods_with_status(store.pods@, PodStatus::Terminating),
        r.terminated == count_pods_with_status(store.pods@, PodStatus::Terminated),
{
    let n = store.pods.len();
    let mut r = PodStatusCounts {
        pending: 0,
        creating: 0,
        running: 0,
        succeeded: 0,
        failed: 0,
        terminating: 0,
        terminated: 0,
    };
    let mut i: usize = 0;
    while i < n
        invariant
            n == store.pods@.len(),
            n <= u32::MAX as int,
            i <= n,
            r.pending == count_pods_with_status(store.pods@.take(i as int), PodStatus::Pending),
            r.creating == count_pods_with_status(store.pods@.take(i as int), PodStatus::Creating),
            r.running == count_pods_with_status(store.pods@.take(i as int), PodStatus::Running),
            r.succeeded == count_pods_with_status(store.pods@.take(i as int), PodStatus::Succeeded),
            r.failed == count_pods_with_status(store.pods@.take(i as int), PodStatus::Failed),
            r.terminating == count_pods_with_status(
                store.pods@.take(i as int),
                PodStatus::Terminating,
            ),
            r.terminated == count_pods_with_status(
                store.pods@.take(i as int),
                PodStatus::Terminated,
            ),
            r.pending <= i && r.creating <= i && r.running <= i && r.succeeded <= i && r.failed
                <= i && r.terminating <= i && r.terminated <= i,
        decreases n - i,
    {
        proof {
            assert(store.pods@.take(i + 1).drop_last() =~= store.pods@.take(i as int));
            assert(store.pods@.take(i + 1).last() == store.pods@[i as int]);
        }
        match store.pods[i].status {
            PodStatus::Pending => r.pending = r.pending + 1,
            PodStatus::Creating => r.creating = r.creating + 1,
            PodStatus::Running => r.running = r.running + 1,
            PodStatus::Succeeded => r.succeeded = r.succeeded + 1,
            PodStatus::Failed => r.failed = r.failed + 1,
            PodStatus::Terminating => r.terminating = r.terminating + 1,
            PodStatus::Terminated => r.terminated = r.terminated + 1,
        }
        i = i + 1;
    }
    proof {
        assert(store.pods@.take(n as int) =~= store.pods@);
    }
    r
}

/// Counts the nodes in every liveness state in one pass.
pub fn nodes_by_status(store: &Store) -> (r: NodeStatusCounts)
    requires
        store.nodes@.len() <= u32::MAX as int,
    ensures
        r.unknown == count_nodes_with_status(store.nodes@, NodeStatus::Unknown),
        r.ready == count_nodes_with_status(store.nodes@, NodeStatus::Ready),
        r.not_ready == count_nodes_with_status(store.nodes@, NodeStatus::NotReady),
{
    let n = store.nodes.len();
    let mut r = NodeStatusCounts { unknown: 0, ready: 0, not_ready: 0 };
    let mut i: usize = 0;
    while i < n
        invariant
            n == store.nodes@.len(),
            n <= u32::MAX as int,
            i <= n,
            r.unknown == count_nodes_with_status(store.nodes@.take(i as int), NodeStatus::Unknown),
            r.ready == count_nodes_with_status(store.nodes@.take(i as int), NodeStatus::Ready),
            r.not_ready == count_nodes_with_status(
                store.nodes@.take(i as int),
                NodeStatus::NotReady,
            ),
            r.unknown <= i && r.ready <= i && r.not_ready <= i,
        decreases n - i,
    {
        proof {
            assert(store.nodes@.take(i + 1).drop_last() =~= store.nodes@.take(i as int));
            assert(store.nodes@.take(i + 1).last() == store.nodes@[i as int]);
        }
        match store.nodes[i].status {
            NodeStatus::Unknown => r.unknown = r.unknown + 1,
            NodeStatus::Ready => r.ready = r.ready + 1,
            NodeStatus::NotReady => r.not_ready = r.not_ready + 1,
        }
        i = i + 1;
    }
    proof {
        assert(store.nodes@.take(n as int) =~= store.nodes@);
    }
    r
}

/// Sums capacity and usage over all nodes in one pass.
pub fn cluster_resource_totals(store: &Store) -> (r: ClusterResourceTotals)
    requires
        store.nodes@.len() <= u32::MAX as int,
    ensures
        r.cpu_capacity == total_cpu_capacity(store.nodes@),
        r.cpu_used == total_cpu_used(store.nodes@),
        r.memory_capacity == total_memory_capacity(store.nodes@),
        r.memory_used == total_memory_used(store.nodes@),
{
    let n = store.nodes.len();
    let mut r = ClusterResourceTotals {
        cpu_capacity: 0,
        cpu_used: 0,
        memory_capacity: 0,
        memory_used: 0,
    };
    let mut i: usize = 0;
    while i < n
        invariant
            n == store.nodes@.len(),
            n <= u32::MAX as int,
            i <= n,
            r.cpu_capacity == total_cpu_capacity(store.nodes@.take(i as int)),
            r.cpu_used == total_cpu_used(store.nodes@.take(i as int)),
            r.memory_capacity == total_memory_capacity(store.nodes@.take(i as int)),
            r.memory_used == total_memory_used(store.nodes@.take(i as int)),
            r.cpu_capacity <= i * (u32::MAX as int),
            r.cpu_used <= i * (u32::MAX as int),
            r.memory_capacity <= i * (u32::MAX as int),
            r.memory_used <= i * (u32::MAX as int),
        decreases n - i,
    {
        proof {
            assert(store.nodes@.take(i + 1).drop_last() =~= store.nodes@.take(i as int));
            assert(store.nodes@.take(i + 1).last() == store.nodes@[i as int]);
            assert((i + 1) * (u32::MAX as int) == i * (u32::MAX as int) + u32::MAX as int)
                by (nonlinear_arith);
            assert(n * (u32::MAX as int) <= 0xffffffffu64 * 0xffffffffu64) by (nonlinear_arith)
                requires
                    n <= 0xffffffffu64,
            ;
        }
        let nd = &store.nodes[i];
        r.cpu_capacity = r.cpu_capacity + nd.capacity.cpu_millis as u64;
        r.cpu_used = r.cpu_used + nd.used.cpu_millis as u64;
        r.memory_capacity = r.memory_capacity + nd.capacity.memory_mb as u64;
        r.memory_used = r.memory_used + nd.used.memory_mb as u64;
        i = i + 1;
    }
    proof {
        assert(store.nodes@.take(n as int) =~= store.nodes@);
    }
    r
}

} // verus!
