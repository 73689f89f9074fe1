use kago::api::{self, ApiError};
use kago::models::{
    CreateDeploymentRequest, HeartbeatRequest, PodStatus, PodStatusReport, RegisterNodeRequest,
    Resources, RollingUpdateConfig, UpdateDeploymentRequest,
};
use kago::store::Store;

fn create_req(name: &str, image: &str) -> CreateDeploymentRequest {
    CreateDeploymentRequest {
        name: name.to_string(),
        image: image.to_string(),
        replicas: 1,
        resources: Resources {
            cpu_millis: 100,
            memory_mb: 128,
        },
        rolling_update: RollingUpdateConfig::default(),
    }
}

#[test]
fn test_create_deployment_validation() {
    let mut store = Store::new();
    assert_eq!(
        api::create_deployment(&mut store, create_req("", "nginx")).unwrap_err(),
        ApiError::EmptyName
    );
    assert_eq!(
        api::create_deployment(&mut store, create_req("web", "")).unwrap_err(),
        ApiError::EmptyImage
    );
    let created = api::create_deployment(&mut store, create_req("web", "nginx")).unwrap();
    assert_eq!(created.revision, 1);
    assert_eq!(
        api::create_deployment(&mut store, create_req("web", "nginx")).unwrap_err(),
        ApiError::AlreadyExists
    );
}

#[test]
fn test_update_deployment_revision_rules() {
    let mut store = Store::new();
    api::create_deployment(&mut store, create_req("web", "nginx")).unwrap();

    // A pure replica change must not touch the revision.
    let updated = api::update_deployment(
        &mut store,
        "web",
        UpdateDeploymentRequest {
            replicas: Some(5),
            image: None,
        },
    )
    .unwrap();
    assert_eq!(updated.replicas, 5);
    assert_eq!(updated.revision, 1);

    // Re-sending the same image must not bump the revision either.
    let updated = api::update_deployment(
        &mut store,
        "web",
        UpdateDeploymentRequest {
            replicas: None,
            image: Some("nginx".to_string()),
        },
    )
    .unwrap();
    assert_eq!(updated.revision, 1);

    // An actual image change bumps it.
    let updated = api::update_deployment(
        &mut store,
        "web",
        UpdateDeploymentRequest {
            replicas: None,
            image: Some("nginx:2".to_string()),
        },
    )
    .unwrap();
    assert_eq!(updated.image, "nginx:2");
    assert_eq!(updated.revision, 2);

    assert_eq!(
        api::update_deployment(
            &mut store,
            "ghost",
            UpdateDeploymentRequest {
                replicas: None,
                image: None,
            },
        )
        .unwrap_err(),
        ApiError::NotFound
    );
}

#[test]
fn test_delete_deployment() {
    let mut store = Store::new();
    api::create_deployment(&mut store, create_req("web", "nginx")).unwrap();
    assert!(api::delete_deployment(&mut store, "web").is_ok());
    assert_eq!(
        api::delete_deployment(&mut store, "web").unwrap_err(),
        ApiError::NotFound
    );
}

#[test]
fn test_delete_pod_sets_terminating_only() {
    let mut store = Store::new();
    let deployment = api::create_deployment(&mut store, create_req("web", "nginx")).unwrap();
    let pod = kago::models::Pod::from_deployment(&deployment, 0);
    let pod_id = pod.id;
    store.add_pod(pod);

    assert!(api::delete_pod(&mut store, pod_id).is_ok());
    // The pod is only marked; the reconciler does the work later.
    assert_eq!(
        store.get_pod(pod_id).unwrap().status,
        PodStatus::Terminating
    );
    assert!(store.get_pod(pod_id).is_some());

    assert_eq!(
        api::delete_pod(&mut store, pod_id ^ 1).unwrap_err(),
        ApiError::NotFound
    );
}

#[test]
fn test_register_node_validation() {
    let mut store = Store::new();
    let req = RegisterNodeRequest {
        name: "".to_string(),
        address: "localhost".to_string(),
        port: 8081,
        capacity: Resources {
            cpu_millis: 1000,
            memory_mb: 1024,
        },
    };
    assert_eq!(
        api::register_node(&mut store, req, 0).unwrap_err(),
        ApiError::EmptyName
    );

    let req = RegisterNodeRequest {
        name: "w1".to_string(),
        address: "localhost".to_string(),
        port: 8081,
        capacity: Resources {
            cpu_millis: 1000,
            memory_mb: 1024,
        },
    };
    let node = api::register_node(&mut store, req, 42).unwrap();
    assert_eq!(node.status, kago::models::NodeStatus::Ready);
    assert_eq!(node.last_heartbeat, 42);
    assert_eq!(node.allocatable.cpu_millis, 1000);
    assert_eq!(node.used.cpu_millis, 0);
}

#[test]
fn test_node_heartbeat_updates_state() {
    let mut store = Store::new();
    let req = RegisterNodeRequest {
        name: "w1".to_string(),
        address: "localhost".to_string(),
        port: 8081,
        capacity: Resources {
            cpu_millis: 1000,
            memory_mb: 1024,
        },
    };
    api::register_node(&mut store, req, 0).unwrap();
    store.update_node_status("w1", kago::models::NodeStatus::NotReady);

    let deployment = api::create_deployment(&mut store, create_req("web", "nginx")).unwrap();
    let running_pod = kago::models::Pod::from_deployment(&deployment, 0);
    let terminating_pod = kago::models::Pod::from_deployment(&deployment, 1);
    let (running_id, terminating_id) = (running_pod.id, terminating_pod.id);
    store.add_pod(running_pod);
    store.add_pod(terminating_pod);
    store.update_pod_status(running_id, PodStatus::Creating);
    store.assign_pod_to_node(running_id, "w1".to_string());
    store.update_pod_status(terminating_id, PodStatus::Terminating);
    store.assign_pod_to_node(terminating_id, "w1".to_string());

    let heartbeat = HeartbeatRequest {
        used: Resources {
            cpu_millis: 300,
            memory_mb: 200,
        },
        pod_statuses: vec![
            PodStatusReport {
                pod_id: running_id,
                status: PodStatus::Running,
                container_id: Some("abc123".to_string()),
            },
            PodStatusReport {
                pod_id: terminating_id,
                status: PodStatus::Running,
                container_id: Some("zzz999".to_string()),
            },
        ],
    };
    assert!(api::node_heartbeat(&mut store, "w1", &heartbeat, 77).is_ok());

    let node = store.get_node("w1").unwrap();
    assert_eq!(node.status, kago::models::NodeStatus::Ready);
    assert_eq!(node.last_heartbeat, 77);
    assert_eq!(node.used.cpu_millis, 300);
    assert_eq!(node.used.memory_mb, 200);

    // The running pod's status and container id were copied over.
    let p = store.get_pod(running_id).unwrap();
    assert_eq!(p.status, PodStatus::Running);
    assert_eq!(p.container_id.as_deref(), Some("abc123"));

    // A terminating pod is never overwritten by a heartbeat: neither its
    // status nor its container id.
    let t = store.get_pod(terminating_id).unwrap();
    assert_eq!(t.status, PodStatus::Terminating);
    assert_eq!(t.container_id, None);

    assert_eq!(
        api::node_heartbeat(&mut store, "ghost", &heartbeat, 77).unwrap_err(),
        ApiError::NotFound
    );
}

#[test]
fn test_deployment_response_counts() {
    let mut store = Store::new();
    let deployment = api::create_deployment(&mut store, create_req("web", "nginx")).unwrap();
    let p0 = kago::models::Pod::from_deployment(&deployment, 0);
    let p1 = kago::models::Pod::from_deployment(&deployment, 1);
    let (id0, _id1) = (p0.id, p1.id);
    store.add_pod(p0);
    store.add_pod(p1);
    store.update_pod_status(id0, PodStatus::Running);

    let response = api::deployment_response(&store, &deployment);
    assert_eq!(response.ready_replicas, 1);
    assert_eq!(response.updated_replicas, 2);
    assert_eq!(response.replicas, 1);
    assert_eq!(response.revision, 1);
}
