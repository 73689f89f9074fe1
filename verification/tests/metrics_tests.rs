use kago::api;
use kago::metrics;
use kago::models::{
    CreateDeploymentRequest, Pod, PodStatus, RegisterNodeRequest, Resources, RollingUpdateConfig,
};
use kago::store::Store;

#[test]
fn test_cluster_aggregations() {
    let mut store = Store::new();
    for (name, used_cpu) in [("w1", 300u32), ("w2", 700u32)] {
        api::register_node(
            &mut store,
            RegisterNodeRequest {
                name: name.to_string(),
                address: "localhost".to_string(),
                port: 8081,
                capacity: Resources {
                    cpu_millis: 4000,
                    memory_mb: 8192,
                },
            },
            0,
        )
        .unwrap();
        store.update_node_resources(
            name,
            Resources {
                cpu_millis: used_cpu,
                memory_mb: 100,
            },
        );
    }
    store.update_node_status("w2", kago::models::NodeStatus::NotReady);

    let deployment = api::create_deployment(
        &mut store,
        CreateDeploymentRequest {
            name: "web".to_string(),
            image: "nginx".to_string(),
            replicas: 3,
            resources: Resources {
                cpu_millis: 100,
                memory_mb: 128,
            },
            rolling_update: RollingUpdateConfig::default(),
        },
    )
    .unwrap();
    let p0 = Pod::from_deployment(&deployment, 0);
    let p1 = Pod::from_deployment(&deployment, 1);
    let p2 = Pod::from_deployment(&deployment, 2);
    let (id0, id1, _id2) = (p0.id, p1.id, p2.id);
    store.add_pod(p0);
    store.add_pod(p1);
    store.add_pod(p2);
    store.update_pod_status(id0, PodStatus::Running);
    store.update_pod_status(id1, PodStatus::Failed);

    let pod_counts = metrics::pods_by_status(&store);
    assert_eq!(pod_counts.running, 1);
    assert_eq!(pod_counts.failed, 1);
    assert_eq!(pod_counts.pending, 1);
    assert_eq!(pod_counts.terminated, 0);

    let node_counts = metrics::nodes_by_status(&store);
    assert_eq!(node_counts.ready, 1);
    assert_eq!(node_counts.not_ready, 1);
    assert_eq!(node_counts.unknown, 0);

    let totals = metrics::cluster_resource_totals(&store);
    assert_eq!(totals.cpu_capacity, 8000);
    assert_eq!(totals.cpu_used, 1000);
    assert_eq!(totals.memory_capacity, 16384);
    assert_eq!(totals.memory_used, 200);
}
