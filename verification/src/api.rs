//! Decisions of the master's HTTP facade: validation, conflict and
//! not-found handling, deployment updates with revision tracking, and
//! heartbeat processing. The HTTP layer outside the library decodes
//! requests, calls these functions, and turns their results into responses.

use vstd::prelude::*;

use crate::models::{
    CreateDeploymentRequest, Deployment, DeploymentResponse, HeartbeatRequest, Node, PodStatus,
    PodStatusReport, RegisterNodeRequest, UpdateDeploymentRequest,
};
use crate::store::{
    count_active_rev, count_running, has_deployment, has_node, has_pod, node_after_heartbeat,
    node_with_used, pod_after_report, pod_with_status, remove_dep, the_dep, the_node, the_pod,
    update_dep, update_node, update_pod, upsert_node, lemma_node_idx_of, Store,
};

verus! {

/// Why the facade refuses a request; each variant maps onto one HTTP
/// status.
#[derive(Debug, Clone, Copy, PartialEq, Eq, Structural)]
pub enum ApiError {
    /// A name was empty (bad request).
    EmptyName,
    /// An image was empty (bad request).
    EmptyImage,
    /// The deployment already exists (conflict).
    AlreadyExists,
    /// The addressed resource does not exist (not found).
    NotFound,
}

/// The deployment an update request turns an existing deployment into:
/// replicas and image are overridden where given, and the revision
/// increments exactly when the image changes (saturating at the type
/// bound, which no real deployment ever reaches).
pub open spec fn updated_deployment(d: Deployment, req: UpdateDeploymentRequest) -> Deployment {
    let d1 = match req.replicas {
        Some(r) => Deployment { replicas: r, ..d },
        None => d,
    };
    match req.image {
        Some(img) => if img@ != d.image@ {
            Deployment { image: img, revision: sat_inc_u64(d.revision), ..d1 }
        } else {
            Deployment { image: img, ..d1 }
        },
        None => d1,
    }
}

/// An increment that saturates at the top of `u64`.
pub open spec fn sat_inc_u64(v: u64) -> u64 {
    if v == u64::MAX {
        v
    } else {
        (v + 1) as u64
    }
}

/// Creates a deployment: refused for an empty name or image or a name
/// already taken; otherwise stored at revision 1 and returned.
pub fn create_deployment(store: &mut Store, req: CreateDeploymentRequest) -> (r: Result<
    Deployment,
    ApiError,
>)
    requires
        old(store).wf(),
    ensures
        final(store).wf(),
        final(store).pods@ == old(store).pods@,
        final(store).nodes@ == old(store).nodes@,
        req.name@.len() == 0 ==> r == Result::<Deployment, ApiError>::Err(ApiError::EmptyName)
            && final(store).deployments@ == old(store).deployments@,
        req.name@.len() > 0 && req.image@.len() == 0 ==> r == Result::<
            Deployment,
            ApiError,
        >::Err(ApiError::EmptyImage) && final(store).deployments@ == old(store).deployments@,
        req.name@.len() > 0 && req.image@.len() > 0 && has_deployment(
            old(store).deployments@,
            req.name@,
        ) ==> r == Result::<Deployment, ApiError>::Err(ApiError::AlreadyExists)
            && final(store).deployments@ == old(store).deployments@,
        req.name@.len() > 0 && req.image@.len() > 0 && !has_deployment(
            old(store).deployments@,
            req.name@,
        ) ==> {
            &&& r matches Ok(d)
            &&& d.name == req.name
            &&& d.image == req.image
            &&& d.replicas == req.replicas
            &&& d.resources == req.resources
            &&& d.rolling_update == req.rolling_update
            &&& d.revision == 1
            &&& final(store).deployments@ == old(store).deployments@.push(d)
        },
{
    if req.name.as_str().unicode_len() == 0 {
        return Err(ApiError::EmptyName);
    }
    if req.image.as_str().unicode_len() == 0 {
        return Err(ApiError::EmptyImage);
    }
    if store.get_deployment(req.name.as_str()).is_some() {
        return Err(ApiError::AlreadyExists);
    }
    let deployment = Deployment {
        name: req.name,
        image: req.image,
        replicas: req.replicas,
        resources: req.resources,
        rolling_update: req.rolling_update,
        revision: 1,
    };
    let response = deployment.clone();
    store.upsert_deployment(deployment);
    Ok(response)
}

/// Updates a deployment: not found if absent; otherwise replicas and image
/// are overridden where given, the revision increments exactly when the
/// image changes, and the updated deployment is returned.
pub fn update_deployment(store: &mut Store, name: &str, req: UpdateDeploymentRequest) -> (r:
    Result<Deployment, ApiError>)
    requires
        old(store).wf(),
    ensures
        final(store).wf(),
        final(store).pods@ == old(store).pods@,
        final(store).nodes@ == old(store).nodes@,
        !has_deployment(old(store).deployments@, name@) ==> r == Result::<
            Deployment,
            ApiError,
        >::Err(ApiError::NotFound) && final(store).deployments@ == old(store).deployments@,
        has_deployment(old(store).deployments@, name@) ==> {
            &&& r matches Ok(d)
            &&& d == updated_deployment(the_dep(old(store).deployments@, name@), req)
            &&& final(store).deployments@ == update_dep(old(store).deployments@, name@, d)
        },
{
    let current = match store.get_deployment(name) {
        Some(d) => d.clone(),
        None => {
            return Err(ApiError::NotFound);
        },
    };
    let mut deployment = current;
    if let Some(replicas) = req.replicas {
        deployment.replicas = replicas;
    }
    match req.image {
        Some(image) => {
            if !crate::text::str_eq(image.as_str(), deployment.image.as_str())
                && deployment.revision < u64::MAX {
                deployment.revision = deployment.revision + 1;
            }
            deployment.image = image;
        },
        None => {},
    }
    let response = deployment.clone();
    store.upsert_deployment(deployment);
    Ok(response)
}

/// Deletes a deployment by name; not found if absent. The caller then
/// terminates the deployment's pods.
pub fn delete_deployment(store: &mut Store, name: &str) -> (r: Result<(), ApiError>)
    requires
        old(store).wf(),
    ensures
        final(store).wf(),
        final(store).pods@ == old(store).pods@,
        final(store).nodes@ == old(store).nodes@,
        r == if has_deployment(old(store).deployments@, name@) {
            Result::<(), ApiError>::Ok(())
        } else {
            Result::<(), ApiError>::Err(ApiError::NotFound)
        },
        final(store).deployments@ == remove_dep(old(store).deployments@, name@),
{
    match store.delete_deployment(name) {
        Some(_) => Ok(()),
        None => Err(ApiError::NotFound),
    }
}

/// Marks a pod for termination on behalf of a user: the pod only turns
/// `Terminating`; the reconciler completes the termination on a later
/// cycle.
pub fn delete_pod(store: &mut Store, pod_id: u128) -> (r: Result<(), ApiError>)
    requires
        old(store).wf(),
    ensures
        final(store).wf(),
        final(store).deployments@ == old(store).deployments@,
        final(store).nodes@ == old(store).nodes@,
        r == if has_pod(old(store).pods@, pod_id) {
            Result::<(), ApiError>::Ok(())
        } else {
            Result::<(), ApiError>::Err(ApiError::NotFound)
        },
        final(store).pods@ == update_pod(
            old(store).pods@,
            pod_id,
            pod_with_status(the_pod(old(store).pods@, pod_id), PodStatus::Terminating),
        ),
{
    if store.update_pod_status(pod_id, PodStatus::Terminating) {
        Ok(())
    } else {
        Err(ApiError::NotFound)
    }
}

/// Registers a node (or re-registers it, resetting its bookkeeping):
/// refused for an empty name; otherwise the node starts `Ready` with its
/// capacity as reported and nothing used.
pub fn register_node(store: &mut Store, req: RegisterNodeRequest, now_ms: i64) -> (r: Result<
    Node,
    ApiError,
>)
    requires
        old(store).wf(),
    ensures
        final(store).wf(),
        final(store).pods@ == old(store).pods@,
        final(store).deployments@ == old(store).deployments@,
        req.name@.len() == 0 ==> r == Result::<Node, ApiError>::Err(ApiError::EmptyName)
            && final(store).nodes@ == old(store).nodes@,
        req.name@.len() > 0 ==> {
            &&& r matches Ok(n)
            &&& n.name == req.name
            &&& n.address == req.address
            &&& n.port == req.port
            &&& n.capacity == req.capacity
            &&& n.allocatable == req.capacity
            &&& n.used.cpu_millis == 0 && n.used.memory_mb == 0
            &&& n.status == crate::models::NodeStatus::Ready
            &&& n.last_heartbeat == now_ms
            &&& final(store).nodes@ == upsert_node(old(store).nodes@, n)
        },
{
    if req.name.as_str().unicode_len() == 0 {
        return Err(ApiError::EmptyName);
    }
    let node = Node::new(req.name, req.address, req.port, req.capacity, now_ms);
    let response = node.clone();
    store.register_node(node);
    Ok(response)
}

/// The pod records after applying the reports of one heartbeat, in order.
pub open spec fn apply_reports(pods: Seq<crate::models::Pod>, reports: Seq<PodStatusReport>) -> Seq<
    crate::models::Pod,
>
    decreases reports.len(),
{
    if reports.len() == 0 {
        pods
    } else {
        let prev = apply_reports(pods, reports.drop_last());
        update_pod(
            prev,
            reports.last().pod_id,
            pod_after_report(the_pod(prev, reports.last().pod_id), reports.last()),
        )
    }
}

/// Processes a heartbeat: not found if the node is unknown; otherwise the
/// node turns `Ready` at the given instant, its observed usage replaces the
/// master's figure, and each reported pod status is copied onto the pods
/// the master still tracks (never overwriting a terminating or terminated
/// pod; container ids are always copied).
pub fn node_heartbeat(store: &mut Store, name: &str, req: &HeartbeatRequest, now_ms: i64) -> (r:
    Result<(), ApiError>)
    requires
        old(store).wf(),
    ensures
        final(store).wf(),
        final(store).deployments@ == old(store).deployments@,
        !has_node(old(store).nodes@, name@) ==> r == Result::<(), ApiError>::Err(ApiError::NotFound)
            && final(store).nodes@ == old(store).nodes@ && final(store).pods@ == old(store).pods@,
        has_node(old(store).nodes@, name@) ==> {
            &&& r == Result::<(), ApiError>::Ok(())
            &&& final(store).nodes@ == update_node(
                old(store).nodes@,
                name@,
                node_with_used(
                    node_after_heartbeat(the_node(old(store).nodes@, name@), now_ms),
                    req.used,
                ),
            )
            &&& final(store).pods@ == apply_reports(old(store).pods@, req.pod_statuses@)
        },
{
    let ghost nodes0 = store.nodes@;
    if !store.update_node_heartbeat(name, now_ms) {
        return Err(ApiError::NotFound);
    }
    let ghost nodes1 = store.nodes@;
    store.update_node_resources(name, req.used);
    proof {
        let i = crate::store::node_idx(nodes0, name@);
        assert(nodes1 == nodes0.update(i, node_after_heartbeat(the_node(nodes0, name@), now_ms)));
        assert(nodes1[i].name@ == name@);
        lemma_node_idx_of(nodes1, name@, i);
        assert(store.nodes@ == nodes1.update(i, node_with_used(the_node(nodes1, name@), req.used)));
        assert(store.nodes@ =~= nodes0.update(
            i,
            node_with_used(node_after_heartbeat(the_node(nodes0, name@), now_ms), req.used),
        ));
    }
    let n = req.pod_statuses.len();
    let ghost pods0 = store.pods@;
    let ghost nodes_done = store.nodes@;
    let mut i: usize = 0;
    while i < n
        invariant
            n == req.pod_statuses@.len(),
            i <= n,
            store.wf(),
            store.deployments@ == old(store).deployments@,
            store.nodes@ == nodes_done,
            store.pods@ == apply_reports(pods0, req.pod_statuses@.take(i as int)),
        decreases n - i,
    {
        proof {
            assert(req.pod_statuses@.take(i + 1).drop_last() =~= req.pod_statuses@.take(i as int));
            assert(req.pod_statuses@.take(i + 1).last() == req.pod_statuses@[i as int]);
        }
        store.apply_pod_report(&req.pod_statuses[i]);
        i = i + 1;
    }
    proof {
        assert(req.pod_statuses@.take(n as int) =~= req.pod_statuses@);
    }
    Ok(())
}

/// The client-facing view of a deployment: ready replicas are its running
/// pods, updated replicas its active pods at the current revision. A store
/// beyond the wire type's range — over four billion pods — reports the
/// counts saturated.
pub fn deployment_response(store: &Store, deployment: &Deployment) -> (r: DeploymentResponse)
    ensures
        r.name == deployment.name,
        r.image == deployment.image,
        r.replicas == deployment.replicas,
        r.resources == deployment.resources,
        r.rolling_update == deployment.rolling_update,
        r.revision == deployment.revision,
        store.pods@.len() <= u32::MAX ==> {
            &&& r.ready_replicas == count_running(store.pods@, deployment.name@)
            &&& r.updated_replicas == count_active_rev(
                store.pods@,
                deployment.name@,
                deployment.revision,
            )
        },
        store.pods@.len() > u32::MAX ==> r.ready_replicas == u32::MAX && r.updated_replicas
            == u32::MAX,
{
    let (ready, updated) = if store.pods.len() <= u32::MAX as usize {
        (
            store.count_running_pods_for_deployment(deployment.name.as_str()),
            store.count_active_pods_for_revision(deployment.name.as_str(), deployment.revision),
        )
    } else {
        (u32::MAX, u32::MAX)
    };
    DeploymentResponse::from_deployment(deployment, ready, updated)
}

} // verus!
