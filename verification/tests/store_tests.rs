use kago::models::{Deployment, Node, Pod, PodStatus, Resources, RollingUpdateConfig};
use kago::store::Store;

#[test]
fn test_deployment_crud() {
    let mut store = Store::new();

    let deployment = Deployment {
        name: "web".to_string(),
        image: "nginx:latest".to_string(),
        replicas: 3,
        resources: Resources {
            cpu_millis: 100,
            memory_mb: 128,
        },
        rolling_update: RollingUpdateConfig::default(),
        revision: 1,
    };

    store.upsert_deployment(deployment);
    assert!(store.get_deployment("web").is_some());
    assert_eq!(store.list_deployments().len(), 1);

    store.delete_deployment("web");
    assert!(store.get_deployment("web").is_none());
}

#[test]
fn test_pod_crud() {
    let mut store = Store::new();

    let pod = Pod {
        id: uuid::Uuid::new_v4().as_u128(),
        name: "web-0".to_string(),
        image: "nginx:latest".to_string(),
        resources: Resources {
            cpu_millis: 100,
            memory_mb: 128,
        },
        deployment_name: None,
        status: PodStatus::Pending,
        container_id: None,
        node_name: None,
        revision: 1,
    };
    let pod_id = pod.id;

    store.add_pod(pod);
    assert!(store.get_pod(pod_id).is_some());

    store.update_pod_status(pod_id, PodStatus::Running);
    assert_eq!(store.get_pod(pod_id).unwrap().status, PodStatus::Running);

    store.delete_pod(pod_id);
    assert!(store.get_pod(pod_id).is_none());
}

#[test]
fn test_pods_for_deployment() {
    let mut store = Store::new();

    let deployment = Deployment {
        name: "web".to_string(),
        image: "nginx:latest".to_string(),
        replicas: 2,
        resources: Resources {
            cpu_millis: 100,
            memory_mb: 128,
        },
        rolling_update: RollingUpdateConfig::default(),
        revision: 1,
    };

    let pod1 = Pod::from_deployment(&deployment, 0);
    let pod2 = Pod::from_deployment(&deployment, 1);

    store.add_pod(pod1);
    store.add_pod(pod2);

    let pods = store.list_pods_for_deployment("web");
    assert_eq!(pods.len(), 2);

    let count = store.count_active_pods_for_deployment("web");
    assert_eq!(count, 2);
}

#[test]
fn test_node_crud() {
    let mut store = Store::new();

    let node = Node::new(
        "worker-1".to_string(),
        "localhost".to_string(),
        8081,
        Resources {
            cpu_millis: 4000,
            memory_mb: 8192,
        },
        0,
    );

    store.register_node(node);
    assert!(store.get_node("worker-1").is_some());
    assert_eq!(store.list_nodes().len(), 1);

    store.update_node_heartbeat("worker-1", 1000);
    assert_eq!(
        store.get_node("worker-1").unwrap().status,
        kago::models::NodeStatus::Ready
    );

    store.delete_node("worker-1");
    assert!(store.get_node("worker-1").is_none());
}

#[test]
fn test_node_resource_allocation() {
    let mut store = Store::new();

    let node = Node::new(
        "worker-1".to_string(),
        "localhost".to_string(),
        8081,
        Resources {
            cpu_millis: 4000,
            memory_mb: 8192,
        },
        0,
    );
    store.register_node(node);

    let resources = Resources {
        cpu_millis: 1000,
        memory_mb: 2048,
    };

    let node = store.get_node("worker-1").unwrap();
    assert!(node.can_fit(&resources));

    store.allocate_resources_on_node("worker-1", &resources);
    let node = store.get_node("worker-1").unwrap();
    assert_eq!(node.used.cpu_millis, 1000);
    assert_eq!(node.used.memory_mb, 2048);

    let large_resources = Resources {
        cpu_millis: 4000,
        memory_mb: 8192,
    };

    // After allocation, should not fit large resources
    assert!(!node.can_fit(&large_resources));

    store.deallocate_resources_on_node("worker-1", &resources);
    let node = store.get_node("worker-1").unwrap();
    assert_eq!(node.used.cpu_millis, 0);
    assert_eq!(node.used.memory_mb, 0);
}

#[test]
fn test_rolling_update_pod_tracking() {
    let mut store = Store::new();

    let deployment_v1 = Deployment {
        name: "web".to_string(),
        image: "nginx:1.0".to_string(),
        replicas: 3,
        resources: Resources {
            cpu_millis: 100,
            memory_mb: 128,
        },
        rolling_update: RollingUpdateConfig::default(),
        revision: 1,
    };

    let pod1 = Pod::from_deployment(&deployment_v1, 0);
    let pod2 = Pod::from_deployment(&deployment_v1, 1);
    let pod3 = Pod::from_deployment(&deployment_v1, 2);

    let (id1, id2, id3) = (pod1.id, pod2.id, pod3.id);
    store.add_pod(pod1);
    store.add_pod(pod2);
    store.add_pod(pod3);
    store.update_pod_status(id1, PodStatus::Running);
    store.update_pod_status(id2, PodStatus::Running);
    store.update_pod_status(id3, PodStatus::Running);
    let old_pods = store.get_old_revision_pods("web", 1);
    assert_eq!(old_pods.len(), 0);

    let deployment_v2 = Deployment {
        name: "web".to_string(),
        image: "nginx:2.0".to_string(),
        replicas: 3,
        resources: Resources {
            cpu_millis: 100,
            memory_mb: 128,
        },
        rolling_update: RollingUpdateConfig::default(),
        revision: 2,
    };
    let old_pods = store.get_old_revision_pods("web", 2);
    assert_eq!(old_pods.len(), 3);
    let new_pod1 = Pod::from_deployment(&deployment_v2, 3);
    let new_id1 = new_pod1.id;
    store.add_pod(new_pod1);
    store.update_pod_status(new_id1, PodStatus::Running);
    assert_eq!(store.count_running_pods_for_revision("web", 1), 3);
    assert_eq!(store.count_running_pods_for_revision("web", 2), 1);
    assert_eq!(store.count_active_pods_for_revision("web", 2), 1);

    let to_terminate = store.get_old_pods_to_terminate("web", 2, 1);
    assert_eq!(to_terminate.len(), 1);
    store.update_pod_status(to_terminate[0], PodStatus::Terminated);

    let old_pods = store.get_old_revision_pods("web", 2);
    assert_eq!(old_pods.len(), 2);
}

#[test]
fn controller_test_controller_creation() {
    let mut store = Store::new();

    let deployment = Deployment {
        name: "test".to_string(),
        image: "nginx:latest".to_string(),
        replicas: 2,
        resources: Resources {
            cpu_millis: 100,
            memory_mb: 128,
        },
        rolling_update: RollingUpdateConfig::default(),
        revision: 1,
    };
    store.upsert_deployment(deployment);

    assert!(store.get_deployment("test").is_some());
}

#[test]
fn mod_test_controller_creation() {
    let mut store = Store::new();

    let deployment = Deployment {
        name: "test".to_string(),
        image: "nginx:latest".to_string(),
        replicas: 2,
        resources: Resources {
            cpu_millis: 100,
            memory_mb: 128,
        },
        rolling_update: RollingUpdateConfig::default(),
        revision: 1,
    };
    store.upsert_deployment(deployment);

    assert!(store.get_deployment("test").is_some());
}

#[test]
fn test_node_registration() {
    let mut store = Store::new();

    assert!(store.list_nodes().is_empty());

    let node = Node::new(
        "worker-1".to_string(),
        "localhost".to_string(),
        8081,
        Resources {
            cpu_millis: 4000,
            memory_mb: 8192,
        },
        0,
    );
    store.register_node(node);

    assert_eq!(store.list_nodes().len(), 1);
    assert!(store.get_node("worker-1").is_some());
}

#[test]
fn test_pods_to_terminate_orders_by_name_desc() {
    let mut store = Store::new();
    let deployment = Deployment {
        name: "web".to_string(),
        image: "nginx".to_string(),
        replicas: 3,
        resources: Resources {
            cpu_millis: 0,
            memory_mb: 0,
        },
        rolling_update: RollingUpdateConfig::default(),
        revision: 1,
    };
    let p0 = Pod::from_deployment(&deployment, 0);
    let p1 = Pod::from_deployment(&deployment, 1);
    let p2 = Pod::from_deployment(&deployment, 2);
    let (id0, id1, id2) = (p0.id, p1.id, p2.id);
    store.add_pod(p0);
    store.add_pod(p1);
    store.add_pod(p2);

    let ids = store.get_pods_to_terminate("web", 2);
    assert_eq!(ids, vec![id2, id1]);
    let all = store.get_pods_to_terminate("web", 10);
    assert_eq!(all, vec![id2, id1, id0]);
}

#[test]
fn test_ready_nodes_sorted_by_name() {
    let mut store = Store::new();
    for name in ["w3", "w1", "w2"] {
        let node = Node::new(
            name.to_string(),
            "localhost".to_string(),
            8081,
            Resources {
                cpu_millis: 1000,
                memory_mb: 1024,
            },
            0,
        );
        store.register_node(node);
    }
    store.update_node_status("w2", kago::models::NodeStatus::NotReady);

    let ready = store.get_ready_nodes();
    let names: Vec<&str> = ready.iter().map(|n| n.name.as_str()).collect();
    assert_eq!(names, vec!["w1", "w3"]);
}

#[test]
fn test_name_desc_order_is_lexicographic() {
    // Pod names are compared as strings, so "web-9" sorts above "web-10";
    // the scale-down order follows that comparison.
    let mut store = Store::new();
    let deployment = Deployment {
        name: "web".to_string(),
        image: "nginx".to_string(),
        replicas: 11,
        resources: Resources {
            cpu_millis: 0,
            memory_mb: 0,
        },
        rolling_update: RollingUpdateConfig::default(),
        revision: 1,
    };
    let p9 = Pod::from_deployment(&deployment, 9);
    let p10 = Pod::from_deployment(&deployment, 10);
    let (id9, _id10) = (p9.id, p10.id);
    store.add_pod(p10);
    store.add_pod(p9);

    let ids = store.get_pods_to_terminate("web", 1);
    assert_eq!(ids, vec![id9]);
}
