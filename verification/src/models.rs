//! Value types of the cluster data model: resource quantities, pod and node
//! status enums, and the record types for deployments, pods and nodes.

use vstd::prelude::*;

use crate::text::{endpoint_str, pod_name, spec_endpoint, spec_pod_name};

verus! {

/// Saturating subtraction on mathematical integers; the model of the
/// executable saturating operations on resource quantities.
pub open spec fn sat_sub(a: int, b: int) -> int {
    if a >= b {
        a - b
    } else {
        0
    }
}

/// Saturating addition on mathematical integers, capped at `u32::MAX`;
/// the model of releasing a reservation back to a cache entry.
pub open spec fn sat_add_u32(a: int, b: int) -> int {
    if a + b <= u32::MAX {
        a + b
    } else {
        u32::MAX as int
    }
}

/// A pair of resource quantities: CPU in millicores and memory in megabytes.
#[derive(Debug, Clone, Copy, PartialEq, Eq, Structural)]
pub struct Resources {
    pub cpu_millis: u32,
    pub memory_mb: u32,
}

impl Resources {
    /// Component-wise saturating subtraction.
    pub fn subtract(&self, other: &Resources) -> (r: Resources)
        ensures
            r.cpu_millis == sat_sub(self.cpu_millis as int, other.cpu_millis as int),
            r.memory_mb == sat_sub(self.memory_mb as int, other.memory_mb as int),
    {
        Resources {
            cpu_millis: if self.cpu_millis >= other.cpu_millis {
                self.cpu_millis - other.cpu_millis
            } else {
                0
            },
            memory_mb: if self.memory_mb >= other.memory_mb {
                self.memory_mb - other.memory_mb
            } else {
                0
            },
        }
    }

    /// Whether a capacity covers a request in both dimensions.
    pub fn fits(&self, request: &Resources) -> (r: bool)
        ensures
            r == spec_fits(*self, *request),
    {
        self.cpu_millis >= request.cpu_millis && self.memory_mb >= request.memory_mb
    }
}

/// Whether a capacity covers a request in both dimensions.
pub open spec fn spec_fits(capacity: Resources, request: Resources) -> bool {
    capacity.cpu_millis >= request.cpu_millis && capacity.memory_mb >= request.memory_mb
}

impl Default for Resources {
    /// The zero quantity: the default resource request.
    fn default() -> (r: Resources)
        ensures
            r.cpu_millis == 0,
            r.memory_mb == 0,
    {
        Resources { cpu_millis: 0, memory_mb: 0 }
    }
}

/// Bounds on a rolling update: how many pods may exist above the desired
/// count, and how many running pods may be missing below it.
#[derive(Debug, Clone, Copy, PartialEq, Eq, Structural)]
pub struct RollingUpdateConfig {
    /// Maximum number of pods that can be created above the desired replica count.
    pub max_surge: u32,
    /// Maximum number of pods that can be unavailable during the update.
    pub max_unavailable: u32,
}

impl Default for RollingUpdateConfig {
    /// One pod of surge, no unavailability.
    fn default() -> (r: RollingUpdateConfig)
        ensures
            r.max_surge == 1,
            r.max_unavailable == 0,
    {
        RollingUpdateConfig { max_surge: 1, max_unavailable: 0 }
    }
}

/// The lifecycle state of a pod.
#[derive(Debug, Clone, Copy, PartialEq, Eq, Structural)]
pub enum PodStatus {
    Pending,
    Creating,
    Running,
    Succeeded,
    Failed,
    Terminating,
    Terminated,
}

/// An active pod counts toward its deployment's replicas: any status but
/// `Terminated` and `Failed`.
pub open spec fn status_active(s: PodStatus) -> bool {
    s != PodStatus::Terminated && s != PodStatus::Failed
}

/// A pod that scale-down and rolling updates may pick for termination:
/// active and not already being terminated.
pub open spec fn status_terminable(s: PodStatus) -> bool {
    s != PodStatus::Terminated && s != PodStatus::Terminating && s != PodStatus::Failed
}

/// A single managed container instance with an identity, a revision and,
/// once bound, a node.
#[derive(Debug)]
pub struct Pod {
    pub id: u128,
    pub name: String,
    pub image: String,
    pub resources: Resources,
    pub deployment_name: Option<String>,
    pub status: PodStatus,
    pub container_id: Option<String>,
    pub node_name: Option<String>,
    /// Revision number for rolling updates; copies the deployment's revision
    /// at creation.
    pub revision: u64,
}

impl Clone for Pod {
    fn clone(&self) -> (r: Pod)
        ensures
            r == *self,
    {
        Pod {
            id: self.id,
            name: self.name.clone(),
            image: self.image.clone(),
            resources: self.resources,
            deployment_name: match &self.deployment_name {
                Some(n) => Some(n.clone()),
                None => None,
            },
            status: self.status,
            container_id: match &self.container_id {
                Some(c) => Some(c.clone()),
                None => None,
            },
            node_name: match &self.node_name {
                Some(n) => Some(n.clone()),
                None => None,
            },
            revision: self.revision,
        }
    }
}

/// Whether a pod belongs to the deployment with the given name.
pub open spec fn pod_in_deployment(p: Pod, deployment: Seq<char>) -> bool {
    match p.deployment_name {
        Some(n) => n@ == deployment,
        None => false,
    }
}

/// A declarative request for a set of identical pods.
#[derive(Debug)]
pub struct Deployment {
    pub name: String,
    pub image: String,
    pub replicas: u32,
    pub resources: Resources,
    /// Rolling update configuration.
    pub rolling_update: RollingUpdateConfig,
    /// Current revision number, incremented on image changes.
    pub revision: u64,
}

impl Clone for Deployment {
    fn clone(&self) -> (r: Deployment)
        ensures
            r == *self,
    {
        Deployment {
            name: self.name.clone(),
            image: self.image.clone(),
            replicas: self.replicas,
            resources: self.resources,
            rolling_update: self.rolling_update,
            revision: self.revision,
        }
    }
}

/// Relies on `uuid::Uuid::new_v4` for a fresh random 128-bit pod identifier.
/// The value is random, so nothing is promised of it.
#[verifier::external_body]
fn new_pod_id() -> u128 {
    uuid::Uuid::new_v4().as_u128()
}

impl Pod {
    /// A fresh pod for a deployment: named after the deployment and the given
    /// index, carrying the deployment's image, resources and revision,
    /// starting `Pending`, unassigned, with a freshly drawn random id.
    pub fn from_deployment(deployment: &Deployment, index: u32) -> (p: Pod)
        ensures
            p.name@ == spec_pod_name(deployment.name@, index as int),
            p.image == deployment.image,
            p.resources == deployment.resources,
            p.deployment_name == Some(deployment.name),
            p.status == PodStatus::Pending,
            p.container_id is None,
            p.node_name is None,
            p.revision == deployment.revision,
    {
        Pod {
            id: new_pod_id(),
            name: pod_name(deployment.name.as_str(), index),
            image: deployment.image.clone(),
            resources: deployment.resources,
            deployment_name: Some(deployment.name.clone()),
            status: PodStatus::Pending,
            container_id: None,
            node_name: None,
            revision: deployment.revision,
        }
    }
}

/// The liveness state of a node.
#[derive(Debug, Clone, Copy, PartialEq, Eq, Structural)]
pub enum NodeStatus {
    Unknown,
    Ready,
    NotReady,
}

/// A worker registered with the master: an agent endpoint, a capacity, the
/// master's accounting of reservations, and heartbeat-driven liveness.
#[derive(Debug)]
pub struct Node {
    pub name: String,
    pub address: String,
    pub port: u16,
    pub capacity: Resources,
    pub allocatable: Resources,
    pub used: Resources,
    pub status: NodeStatus,
    /// Timestamp of the last heartbeat, in milliseconds.
    pub last_heartbeat: i64,
}

impl Clone for Node {
    fn clone(&self) -> (r: Node)
        ensures
            r == *self,
    {
        Node {
            name: self.name.clone(),
            address: self.address.clone(),
            port: self.port,
            capacity: self.capacity,
            allocatable: self.allocatable,
            used: self.used,
            status: self.status,
            last_heartbeat: self.last_heartbeat,
        }
    }
}

impl Node {
    /// A newly registered node: allocatable equals capacity, nothing used,
    /// `Ready`, with the registration instant as its first heartbeat.
    pub fn new(name: String, address: String, port: u16, capacity: Resources, now_ms: i64) -> (n:
        Node)
        ensures
            n.name == name,
            n.address == address,
            n.port == port,
            n.capacity == capacity,
            n.allocatable == capacity,
            n.used.cpu_millis == 0,
            n.used.memory_mb == 0,
            n.status == NodeStatus::Ready,
            n.last_heartbeat == now_ms,
    {
        Node {
            name,
            address,
            port,
            capacity,
            allocatable: capacity,
            used: Resources { cpu_millis: 0, memory_mb: 0 },
            status: NodeStatus::Ready,
            last_heartbeat: now_ms,
        }
    }

    /// What is left for new reservations: allocatable minus used.
    pub fn available_resources(&self) -> (r: Resources)
        ensures
            r.cpu_millis == sat_sub(self.allocatable.cpu_millis as int, self.used.cpu_millis as int),
            r.memory_mb == sat_sub(self.allocatable.memory_mb as int, self.used.memory_mb as int),
    {
        self.allocatable.subtract(&self.used)
    }

    /// Whether the node's remaining resources cover a request.
    pub fn can_fit(&self, request: &Resources) -> (r: bool)
        ensures
            r == spec_node_can_fit(*self, *request),
    {
        self.available_resources().fits(request)
    }

    /// The HTTP base address of the node's agent.
    pub fn endpoint(&self) -> (r: String)
        ensures
            r@ == spec_endpoint(self.address@, self.port as int),
    {
        endpoint_str(self.address.as_str(), self.port)
    }
}

/// Whether a node's remaining capacity covers a request.
pub open spec fn spec_node_can_fit(n: Node, request: Resources) -> bool {
    sat_sub(n.allocatable.cpu_millis as int, n.used.cpu_millis as int) >= request.cpu_millis
        && sat_sub(n.allocatable.memory_mb as int, n.used.memory_mb as int) >= request.memory_mb
}

/// Body of a request to create a deployment.
#[derive(Debug)]
pub struct CreateDeploymentRequest {
    pub name: String,
    pub image: String,
    pub replicas: u32,
    pub resources: Resources,
    pub rolling_update: RollingUpdateConfig,
}

impl Clone for CreateDeploymentRequest {
    fn clone(&self) -> (r: CreateDeploymentRequest)
        ensures
            r == *self,
    {
        CreateDeploymentRequest {
            name: self.name.clone(),
            image: self.image.clone(),
            replicas: self.replicas,
            resources: self.resources,
            rolling_update: self.rolling_update,
        }
    }
}

/// Body of a request to update a deployment; absent fields stay unchanged.
#[derive(Debug)]
pub struct UpdateDeploymentRequest {
    pub replicas: Option<u32>,
    pub image: Option<String>,
}

/// A deployment as reported to clients, with replica accounting.
#[derive(Debug)]
pub struct DeploymentResponse {
    pub name: String,
    pub image: String,
    pub replicas: u32,
    pub resources: Resources,
    pub ready_replicas: u32,
    pub rolling_update: RollingUpdateConfig,
    pub revision: u64,
    /// Number of pods with the current revision.
    pub updated_replicas: u32,
}

impl DeploymentResponse {
    /// A response for a deployment with the given replica counts.
    pub fn from_deployment(deployment: &Deployment, ready_replicas: u32, updated_replicas: u32) -> (
        r: DeploymentResponse)
        ensures
            r.name == deployment.name,
            r.image == deployment.image,
            r.replicas == deployment.replicas,
            r.resources == deployment.resources,
            r.ready_replicas == ready_replicas,
            r.rolling_update == deployment.rolling_update,
            r.revision == deployment.revision,
            r.updated_replicas == updated_replicas,
    {
        DeploymentResponse {
            name: deployment.name.clone(),
            image: deployment.image.clone(),
            replicas: deployment.replicas,
            resources: deployment.resources,
            ready_replicas,
            rolling_update: deployment.rolling_update,
            revision: deployment.revision,
            updated_replicas,
        }
    }
}

/// A pod as reported to clients.
#[derive(Debug)]
pub struct PodResponse {
    pub id: u128,
    pub name: String,
    pub image: String,
    pub status: PodStatus,
    pub deployment_name: Option<String>,
    pub node_name: Option<String>,
    pub revision: u64,
}

impl PodResponse {
    /// The client-facing view of a pod.
    pub fn from_pod(pod: &Pod) -> (r: PodResponse)
        ensures
            r.id == pod.id,
            r.name == pod.name,
            r.image == pod.image,
            r.status == pod.status,
            r.deployment_name == pod.deployment_name,
            r.node_name == pod.node_name,
            r.revision == pod.revision,
    {
        PodResponse {
            id: pod.id,
            name: pod.name.clone(),
            image: pod.image.clone(),
            status: pod.status,
            deployment_name: match &pod.deployment_name {
                Some(n) => Some(n.clone()),
                None => None,
            },
            node_name: match &pod.node_name {
                Some(n) => Some(n.clone()),
                None => None,
            },
            revision: pod.revision,
        }
    }
}

/// Body of a node registration request.
#[derive(Debug)]
pub struct RegisterNodeRequest {
    pub name: String,
    pub address: String,
    pub port: u16,
    pub capacity: Resources,
}

impl Clone for RegisterNodeRequest {
    fn clone(&self) -> (r: RegisterNodeRequest)
        ensures
            r == *self,
    {
        RegisterNodeRequest {
            name: self.name.clone(),
            address: self.address.clone(),
            port: self.port,
            capacity: self.capacity,
        }
    }
}

/// Body of an agent heartbeat: observed usage and the status of every pod the
/// agent tracks.
#[derive(Debug)]
pub struct HeartbeatRequest {
    pub used: Resources,
    pub pod_statuses: Vec<PodStatusReport>,
}

/// One pod's status as reported by an agent heartbeat.
#[derive(Debug)]
pub struct PodStatusReport {
    pub pod_id: u128,
    pub status: PodStatus,
    pub container_id: Option<String>,
}

impl Clone for PodStatusReport {
    fn clone(&self) -> (r: PodStatusReport)
        ensures
            r == *self,
    {
        PodStatusReport {
            pod_id: self.pod_id,
            status: self.status,
            container_id: match &self.container_id {
                Some(c) => Some(c.clone()),
                None => None,
            },
        }
    }
}

/// A node as reported to clients, with its derived availability.
#[derive(Debug)]
pub struct NodeResponse {
    pub name: String,
    pub address: String,
    pub port: u16,
    pub status: NodeStatus,
    pub capacity: Resources,
    pub allocatable: Resources,
    pub used: Resources,
    pub available: Resources,
}

impl NodeResponse {
    /// The client-facing view of a node.
    pub fn from_node(node: &Node) -> (r: NodeResponse)
        ensures
            r.name == node.name,
            r.address == node.address,
            r.port == node.port,
            r.status == node.status,
            r.capacity == node.capacity,
            r.allocatable == node.allocatable,
            r.used == node.used,
            r.available.cpu_millis == sat_sub(
                node.allocatable.cpu_millis as int,
                node.used.cpu_millis as int,
            ),
            r.available.memory_mb == sat_sub(
                node.allocatable.memory_mb as int,
                node.used.memory_mb as int,
            ),
    {
        NodeResponse {
            name: node.name.clone(),
            address: node.address.clone(),
            port: node.port,
            status: node.status,
            capacity: node.capacity,
            allocatable: node.allocatable,
            used: node.used,
            available: node.available_resources(),
        }
    }
}

/// Body of the master's request to an agent to create a pod.
#[derive(Debug)]
pub struct CreatePodOnNodeRequest {
    pub pod_id: u128,
    pub name: String,
    pub image: String,
    pub resources: Resources,
}

impl Clone for CreatePodOnNodeRequest {
    fn clone(&self) -> (r: CreatePodOnNodeRequest)
        ensures
            r == *self,
    {
        CreatePodOnNodeRequest {
            pod_id: self.pod_id,
            name: self.name.clone(),
            image: self.image.clone(),
            resources: self.resources,
        }
    }
}

/// One pod's status as listed by an agent's own API.
#[derive(Debug)]
pub struct AgentPodStatus {
    pub pod_id: u128,
    pub name: String,
    pub status: PodStatus,
    pub container_id: Option<String>,
}

} // verus!
