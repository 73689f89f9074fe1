//! The node agent's pod bookkeeping: the local pod set, the resource usage
//! it reports in heartbeats, and the state transitions driven by the
//! master's create/delete calls and by what the container runtime reports.
//! The runtime and HTTP calls happen outside; these functions take their
//! outcomes as plain values.

use vstd::prelude::*;

use crate::models::{PodStatus, PodStatusReport, Resources};
use crate::runtime::ContainerStatus;
use crate::text::str_eq;

verus! {

/// A pod the agent tracks on its node.
#[derive(Debug)]
pub struct ManagedPod {
    pub pod_id: u128,
    pub name: String,
    pub resources: Resources,
    pub container_id: Option<String>,
    pub status: PodStatus,
}

impl Clone for ManagedPod {
    fn clone(&self) -> (r: ManagedPod)
        ensures
            r == *self,
    {
        ManagedPod {
            pod_id: self.pod_id,
            name: self.name.clone(),
            resources: self.resources,
            container_id: match &self.container_id {
                Some(c) => Some(c.clone()),
                None => None,
            },
            status: self.status,
        }
    }
}

/// A pod counts toward the agent's reported usage while it runs or is being
/// created.
pub open spec fn pod_charged(m: ManagedPod) -> bool {
    m.status == PodStatus::Running || m.status == PodStatus::Creating
}

/// CPU the agent's charged pods hold, in millicores.
pub open spec fn agent_used_cpu(pods: Seq<ManagedPod>) -> int
    decreases pods.len(),
{
    if pods.len() == 0 {
        0
    } else {
        agent_used_cpu(pods.drop_last()) + if pod_charged(pods.last()) {
            pods.last().resources.cpu_millis as int
        } else {
            0int
        }
    }
}

/// Memory the agent's charged pods hold, in megabytes.
pub open spec fn agent_used_mem(pods: Seq<ManagedPod>) -> int
    decreases pods.len(),
{
    if pods.len() == 0 {
        0
    } else {
        agent_used_mem(pods.drop_last()) + if pod_charged(pods.last()) {
            pods.last().resources.memory_mb as int
        } else {
            0int
        }
    }
}

/// A sum clamped into `u32`.
pub open spec fn clamp_u32(x: int) -> int {
    if x <= u32::MAX {
        x
    } else {
        u32::MAX as int
    }
}

pub open spec fn has_agent_pod(pods: Seq<ManagedPod>, id: u128) -> bool {
    exists|i: int| 0 <= i < pods.len() && pods[i].pod_id == id
}

pub open spec fn agent_pod_ids_unique(pods: Seq<ManagedPod>) -> bool {
    forall|i: int, j: int| 0 <= i < j < pods.len() ==> pods[i].pod_id != pods[j].pod_id
}

pub open spec fn agent_pod_idx(pods: Seq<ManagedPod>, id: u128) -> int {
    choose|i: int| 0 <= i < pods.len() && pods[i].pod_id == id
}

/// The tracked pod with the given id.
pub open spec fn the_agent_pod(pods: Seq<ManagedPod>, id: u128) -> ManagedPod {
    pods[agent_pod_idx(pods, id)]
}

/// The pod set with the identified pod replaced, if it is there.
pub open spec fn update_agent_pod(pods: Seq<ManagedPod>, id: u128, m: ManagedPod) -> Seq<
    ManagedPod,
> {
    if has_agent_pod(pods, id) {
        pods.update(agent_pod_idx(pods, id), m)
    } else {
        pods
    }
}

/// The pod set with the identified pod removed, if it is there.
pub open spec fn remove_agent_pod(pods: Seq<ManagedPod>, id: u128) -> Seq<ManagedPod> {
    if has_agent_pod(pods, id) {
        pods.remove(agent_pod_idx(pods, id))
    } else {
        pods
    }
}

/// With unique ids, a matching index is the index `agent_pod_idx` names.
pub proof fn lemma_agent_pod_idx_of(pods: Seq<ManagedPod>, id: u128, i: int)
    requires
        agent_pod_ids_unique(pods),
        0 <= i < pods.len(),
        pods[i].pod_id == id,
    ensures
        has_agent_pod(pods, id),
        agent_pod_idx(pods, id) == i,
{
    assert(has_agent_pod(pods, id));
    let j = agent_pod_idx(pods, id);
    assert(0 <= j < pods.len() && pods[j].pod_id == id);
}

/// Index of the first pod carrying a name, `-1` if none does.
pub open spec fn first_pod_named(pods: Seq<ManagedPod>, name: Seq<char>) -> int
    decreases pods.len(),
{
    if pods.len() == 0 {
        -1
    } else if pods[0].name@ == name {
        0
    } else {
        let rest = first_pod_named(pods.drop_first(), name);
        if rest < 0 {
            -1
        } else {
            rest + 1
        }
    }
}

/// A pod's state as reported in a heartbeat.
pub open spec fn report_of(m: ManagedPod) -> PodStatusReport {
    PodStatusReport { pod_id: m.pod_id, status: m.status, container_id: m.container_id }
}

/// What the agent asks the container runtime to run for a pod: zero
/// requests become absent limits.
#[derive(Debug)]
pub struct ContainerRunRequest {
    pub name: String,
    pub image: String,
    pub cpu_millis: Option<u32>,
    pub memory_mb: Option<u32>,
}

/// A managed pod's status after the runtime reports a container state:
/// running containers run, exited or dead ones have failed, created ones
/// are still creating; other states leave the pod as it is, and a pod
/// already terminating is never overwritten.
pub open spec fn synced_status(current: PodStatus, cs: ContainerStatus) -> PodStatus {
    if current == PodStatus::Terminating {
        current
    } else {
        match cs {
            ContainerStatus::Running => PodStatus::Running,
            ContainerStatus::Exited => PodStatus::Failed,
            ContainerStatus::Dead => PodStatus::Failed,
            ContainerStatus::Created => PodStatus::Creating,
            _ => current,
        }
    }
}

/// The pods the agent tracks on its node, keyed by pod id.
#[derive(Debug)]
pub struct AgentPods {
    pub pods: Vec<ManagedPod>,
}

impl AgentPods {
    /// Pod ids are unique.
    pub open spec fn wf(self) -> bool {
        agent_pod_ids_unique(self.pods@)
    }

    /// An agent that tracks no pods yet.
    pub fn new() -> (s: AgentPods)
        ensures
            s.pods@.len() == 0,
            s.wf(),
    {
        AgentPods { pods: Vec::new() }
    }

    /// The usage the agent reports: the summed requests of its running and
    /// creating pods — exactly that sum whenever it fits the wire type,
    /// clamped at the type bound otherwise.
    pub fn calculate_used_resources(&self) -> (r: Resources)
        ensures
            r.cpu_millis == clamp_u32(agent_used_cpu(self.pods@)),
            r.memory_mb == clamp_u32(agent_used_mem(self.pods@)),
            agent_used_cpu(self.pods@) <= u32::MAX ==> r.cpu_millis == agent_used_cpu(
                self.pods@,
            ),
            agent_used_mem(self.pods@) <= u32::MAX ==> r.memory_mb == agent_used_mem(self.pods@),
    {
        let n = self.pods.len();
        let mut cpu: u32 = 0;
        let mut mem: u32 = 0;
        let mut i: usize = 0;
        while i < n
            invariant
                n == self.pods@.len(),
                i <= n,
                cpu == clamp_u32(agent_used_cpu(self.pods@.take(i as int))),
                mem == clamp_u32(agent_used_mem(self.pods@.take(i as int))),
            decreases n - i,
        {
            proof {
                assert(self.pods@.take(i + 1).drop_last() =~= self.pods@.take(i as int));
                assert(self.pods@.take(i + 1).last() == self.pods@[i as int]);
            }
            let p = &self.pods[i];
            if p.status == PodStatus::Running || p.status == PodStatus::Creating {
                cpu = cpu.saturating_add(p.resources.cpu_millis);
                mem = mem.saturating_add(p.resources.memory_mb);
            }
            i = i + 1;
        }
        proof {
            assert(self.pods@.take(n as int) =~= self.pods@);
        }
        Resources { cpu_millis: cpu, memory_mb: mem }
    }

    /// The status of every tracked pod, for the heartbeat body.
    pub fn get_pod_statuses(&self) -> (r: Vec<PodStatusReport>)
        ensures
            r@.len() == self.pods@.len(),
            forall|i: int| 0 <= i < r@.len() ==> r@[i] == report_of(#[trigger] self.pods@[i]),
    {
        let n = self.pods.len();
        let mut r: Vec<PodStatusReport> = Vec::new();
        let mut i: usize = 0;
        while i < n
            invariant
                n == self.pods@.len(),
                i <= n,
                r@.len() == i,
                forall|k: int| 0 <= k < i ==> r@[k] == report_of(#[trigger] self.pods@[k]),
            decreases n - i,
        {
            let p = &self.pods[i];
            r.push(
                PodStatusReport {
                    pod_id: p.pod_id,
                    status: p.status,
                    container_id: match &p.container_id {
                        Some(c) => Some(c.clone()),
                        None => None,
                    },
                },
            );
            i = i + 1;
        }
        r
    }

    /// Accepts the master's request to create a pod: refused if the pod id
    /// is already tracked; otherwise the pod is tracked as `Creating` and
    /// the returned request says what to ask the runtime to run, with zero
    /// resource requests turned into absent limits.
    pub fn start_create(&mut self, req: &crate::models::CreatePodOnNodeRequest) -> (r: Option<
        ContainerRunRequest,
    >)
        requires
            old(self).wf(),
        ensures
            final(self).wf(),
            has_agent_pod(old(self).pods@, req.pod_id) ==> r is None && final(self).pods@ == old(
                self,
            ).pods@,
            !has_agent_pod(old(self).pods@, req.pod_id) ==> {
                &&& r matches Some(run)
                &&& run.name == req.name
                &&& run.image == req.image
                &&& run.cpu_millis == if req.resources.cpu_millis > 0 {
                    Some(req.resources.cpu_millis)
                } else {
                    None
                }
                &&& run.memory_mb == if req.resources.memory_mb > 0 {
                    Some(req.resources.memory_mb)
                } else {
                    None
                }
                &&& final(self).pods@ == old(self).pods@.push(
                    ManagedPod {
                        pod_id: req.pod_id,
                        name: req.name,
                        resources: req.resources,
                        container_id: None,
                        status: PodStatus::Creating,
                    },
                )
            },
    {
        let n = self.pods.len();
        let mut i: usize = 0;
        while i < n
            invariant
                n == self.pods@.len(),
                i <= n,
                forall|j: int| 0 <= j < i ==> self.pods@[j].pod_id != req.pod_id,
                self == old(self),
                old(self).wf(),
            decreases n - i,
        {
            if self.pods[i].pod_id == req.pod_id {
                return None;
            }
            i = i + 1;
        }
        self.pods.push(
            ManagedPod {
                pod_id: req.pod_id,
                name: req.name.clone(),
                resources: req.resources,
                container_id: None,
                status: PodStatus::Creating,
            },
        );
        Some(
            ContainerRunRequest {
                name: req.name.clone(),
                image: req.image.clone(),
                cpu_millis: if req.resources.cpu_millis > 0 {
                    Some(req.resources.cpu_millis)
                } else {
                    None
                },
                memory_mb: if req.resources.memory_mb > 0 {
                    Some(req.resources.memory_mb)
                } else {
                    None
                },
            },
        )
    }

    /// Records the runtime's answer to a create: on success the pod runs
    /// under the returned container id, on failure it is marked failed.
    pub fn finish_create(&mut self, pod_id: u128, outcome: Option<String>)
        requires
            old(self).wf(),
        ensures
            final(self).wf(),
            final(self).pods@ == update_agent_pod(
                old(self).pods@,
                pod_id,
                match outcome {
                    Some(cid) => ManagedPod {
                        container_id: Some(cid),
                        status: PodStatus::Running,
                        ..the_agent_pod(old(self).pods@, pod_id)
                    },
                    None => ManagedPod {
                        status: PodStatus::Failed,
                        ..the_agent_pod(old(self).pods@, pod_id)
                    },
                },
            ),
    {
        let n = self.pods.len();
        let mut i: usize = 0;
        while i < n
            invariant
                n == self.pods@.len(),
                i <= n,
                forall|j: int| 0 <= j < i ==> self.pods@[j].pod_id != pod_id,
                self == old(self),
                old(self).wf(),
            decreases n - i,
        {
            if self.pods[i].pod_id == pod_id {
                proof {
                    lemma_agent_pod_idx_of(self.pods@, pod_id, i as int);
                }
                let mut p = self.pods[i].clone();
                match outcome {
                    Some(cid) => {
                        p.container_id = Some(cid);
                        p.status = PodStatus::Running;
                    },
                    None => {
                        p.status = PodStatus::Failed;
                    },
                }
                self.pods.set(i, p);
                return ;
            }
            i = i + 1;
        }
    }

    /// Looks the pod with a name up, as the master's delete call identifies
    /// pods: the first tracked pod carrying the name.
    pub fn find_pod_by_name(&self, name: &str) -> (r: Option<(u128, Option<String>)>)
        ensures
            ({
                let fi = first_pod_named(self.pods@, name@);
                match r {
                    Some((id, cid)) => fi >= 0 && id == self.pods@[fi].pod_id && cid
                        == self.pods@[fi].container_id,
                    None => fi == -1,
                }
            }),
    {
        let n = self.pods.len();
        let mut i: usize = 0;
        while i < n
            invariant
                n == self.pods@.len(),
                i <= n,
                forall|j: int| 0 <= j < i ==> self.pods@[j].name@ != name@,
            decreases n - i,
        {
            if str_eq(self.pods[i].name.as_str(), name) {
                proof {
                    lemma_first_pod_named_at(self.pods@, name@, i as int);
                }
                let p = &self.pods[i];
                return Some(
                    (
                        p.pod_id,
                        match &p.container_id {
                            Some(c) => Some(c.clone()),
                            None => None,
                        },
                    ),
                );
            }
            i = i + 1;
        }
        proof {
            lemma_first_pod_named_none(self.pods@, name@);
        }
        None
    }

    /// Marks a tracked pod `Terminating` when the master deletes it.
    pub fn mark_terminating(&mut self, pod_id: u128)
        requires
            old(self).wf(),
        ensures
            final(self).wf(),
            final(self).pods@ == update_agent_pod(
                old(self).pods@,
                pod_id,
                ManagedPod {
                    status: PodStatus::Terminating,
                    ..the_agent_pod(old(self).pods@, pod_id)
                },
            ),
    {
        let n = self.pods.len();
        let mut i: usize = 0;
        while i < n
            invariant
                n == self.pods@.len(),
                i <= n,
                forall|j: int| 0 <= j < i ==> self.pods@[j].pod_id != pod_id,
                self == old(self),
                old(self).wf(),
            decreases n - i,
        {
            if self.pods[i].pod_id == pod_id {
                proof {
                    lemma_agent_pod_idx_of(self.pods@, pod_id, i as int);
                }
                let mut p = self.pods[i].clone();
                p.status = PodStatus::Terminating;
                self.pods.set(i, p);
                return ;
            }
            i = i + 1;
        }
    }

    /// Stops tracking a pod once its containers are gone.
    pub fn remove_pod(&mut self, pod_id: u128)
        requires
            old(self).wf(),
        ensures
            final(self).wf(),
            final(self).pods@ == remove_agent_pod(old(self).pods@, pod_id),
    {
        let n = self.pods.len();
        let mut i: usize = 0;
        while i < n
            invariant
                n == self.pods@.len(),
                i <= n,
                forall|j: int| 0 <= j < i ==> self.pods@[j].pod_id != pod_id,
                self == old(self),
                old(self).wf(),
            decreases n - i,
        {
            if self.pods[i].pod_id == pod_id {
                proof {
                    lemma_agent_pod_idx_of(self.pods@, pod_id, i as int);
                }
                self.pods.remove(i);
                proof {
                    assert forall|a: int, b: int|
                        0 <= a < b < self.pods@.len() implies self.pods@[a].pod_id
                        != self.pods@[b].pod_id by {
                        old(self).pods@.remove_ensures(i as int);
                    }
                }
                return ;
            }
            i = i + 1;
        }
    }

    /// The pods whose container state the agent should ask the runtime
    /// about before a heartbeat: those running or still creating.
    pub fn pods_needing_sync(&self) -> (r: Vec<(u128, String)>)
        ensures
            r@ == sync_targets(self.pods@),
    {
        let n = self.pods.len();
        let mut r: Vec<(u128, String)> = Vec::new();
        let mut i: usize = 0;
        while i < n
            invariant
                n == self.pods@.len(),
                i <= n,
                r@ == sync_targets(self.pods@.take(i as int)),
            decreases n - i,
        {
            proof {
                assert(self.pods@.take(i + 1).drop_last() =~= self.pods@.take(i as int));
                assert(self.pods@.take(i + 1).last() == self.pods@[i as int]);
            }
            let p = &self.pods[i];
            if p.status == PodStatus::Running || p.status == PodStatus::Creating {
                r.push((p.pod_id, p.name.clone()));
            }
            i = i + 1;
        }
        proof {
            assert(self.pods@.take(n as int) =~= self.pods@);
        }
        r
    }

    /// Applies a container state the runtime reported for a pod.
    pub fn apply_container_state(&mut self, pod_id: u128, state: ContainerStatus)
        requires
            old(self).wf(),
        ensures
            final(self).wf(),
            final(self).pods@ == update_agent_pod(
                old(self).pods@,
                pod_id,
                ManagedPod {
                    status: synced_status(the_agent_pod(old(self).pods@, pod_id).status, state),
                    ..the_agent_pod(old(self).pods@, pod_id)
                },
            ),
    {
        let n = self.pods.len();
        let mut i: usize = 0;
        while i < n
            invariant
                n == self.pods@.len(),
                i <= n,
                forall|j: int| 0 <= j < i ==> self.pods@[j].pod_id != pod_id,
                self == old(self),
                old(self).wf(),
            decreases n - i,
        {
            if self.pods[i].pod_id == pod_id {
                proof {
                    lemma_agent_pod_idx_of(self.pods@, pod_id, i as int);
                }
                let mut p = self.pods[i].clone();
                if p.status != PodStatus::Terminating {
                    match state {
                        ContainerStatus::Running => {
                            p.status = PodStatus::Running;
                        },
                        ContainerStatus::Exited => {
                            p.status = PodStatus::Failed;
                        },
                        ContainerStatus::Dead => {
                            p.status = PodStatus::Failed;
                        },
                        ContainerStatus::Created => {
                            p.status = PodStatus::Creating;
                        },
                        _ => {},
                    }
                }
                self.pods.set(i, p);
                return ;
            }
            i = i + 1;
        }
    }

    /// Marks a pod failed when the runtime no longer knows its container,
    /// unless the pod is already on its way out.
    pub fn apply_container_not_found(&mut self, pod_id: u128)
        requires
            old(self).wf(),
        ensures
            final(self).wf(),
            final(self).pods@ == update_agent_pod(
                old(self).pods@,
                pod_id,
                ({
                    let p = the_agent_pod(old(self).pods@, pod_id);
                    if p.status != PodStatus::Terminating && p.status != PodStatus::Terminated {
                        ManagedPod { status: PodStatus::Failed, ..p }
                    } else {
                        p
                    }
                }),
            ),
    {
        let n = self.pods.len();
        let mut i: usize = 0;
        while i < n
            invariant
                n == self.pods@.len(),
                i <= n,
                forall|j: int| 0 <= j < i ==> self.pods@[j].pod_id != pod_id,
                self == old(self),
                old(self).wf(),
            decreases n - i,
        {
            if self.pods[i].pod_id == pod_id {
                proof {
                    lemma_agent_pod_idx_of(self.pods@, pod_id, i as int);
                }
                let mut p = self.pods[i].clone();
                if p.status != PodStatus::Terminating && p.status != PodStatus::Terminated {
                    p.status = PodStatus::Failed;
                }
                self.pods.set(i, p);
                return ;
            }
            i = i + 1;
        }
    }
}

/// The ids and names of the pods that need a container-state check.
pub open spec fn sync_targets(pods: Seq<ManagedPod>) -> Seq<(u128, String)>
    decreases pods.len(),
{
    if pods.len() == 0 {
        Seq::empty()
    } else {
        sync_targets(pods.drop_last()) + if pod_charged(pods.last()) {
            seq![(pods.last().pod_id, pods.last().name)]
        } else {
            Seq::empty()
        }
    }
}

/// A name match at index `i`, with no match before it, pins
/// `first_pod_named`.
proof fn lemma_first_pod_named_at(pods: Seq<ManagedPod>, name: Seq<char>, i: int)
    requires
        0 <= i < pods.len(),
        forall|j: int| 0 <= j < i ==> pods[j].name@ != name,
        pods[i].name@ == name,
    ensures
        first_pod_named(pods, name) == i,
    decreases i,
{
    if i == 0 {
    } else {
        let t = pods.drop_first();
        assert(forall|k: int| 0 <= k < i - 1 ==> t[k] == pods[k + 1]);
        assert(t[i - 1] == pods[i]);
        lemma_first_pod_named_at(t, name, i - 1);
    }
}

/// No match anywhere means `first_pod_named` is `-1`.
proof fn lemma_first_pod_named_none(pods: Seq<ManagedPod>, name: Seq<char>)
    requires
        forall|j: int| 0 <= j < pods.len() ==> pods[j].name@ != name,
    ensures
        first_pod_named(pods, name) == -1,
    decreases pods.len(),
{
    if pods.len() > 0 {
        let t = pods.drop_first();
        assert(forall|k: int| 0 <= k < t.len() ==> t[k] == pods[k + 1]);
        lemma_first_pod_named_none(t, name);
    }
}

} // verus!
