use kago::api;
use kago::controller::{self, TerminationStep, NODE_TIMEOUT_MS};
use kago::models::{
    CreateDeploymentRequest, PodStatus, RegisterNodeRequest, Resources, RollingUpdateConfig,
    UpdateDeploymentRequest,
};
use kago::scheduler::{self, Scheduler, SchedulingStrategy};
use kago::store::Store;

fn register(store: &mut Store, name: &str, cpu: u32, mem: u32, now_ms: i64) {
    let req = RegisterNodeRequest {
        name: name.to_string(),
        address: "localhost".to_string(),
        port: 8081,
        capacity: Resources {
            cpu_millis: cpu,
            memory_mb: mem,
        },
    };
    api::register_node(store, req, now_ms).expect("node registration");
}

fn post_deployment(store: &mut Store, name: &str, image: &str, replicas: u32, cpu: u32, mem: u32) {
    let req = CreateDeploymentRequest {
        name: name.to_string(),
        image: image.to_string(),
        replicas,
        resources: Resources {
            cpu_millis: cpu,
            memory_mb: mem,
        },
        rolling_update: RollingUpdateConfig::default(),
    };
    api::create_deployment(store, req).expect("deployment creation");
}

fn run_termination(store: &mut Store, pod_id: u128, agent_ok: bool) {
    if let TerminationStep::AgentCall { .. } = controller::begin_pod_termination(store, pod_id) {
        controller::finish_pod_termination(store, pod_id, agent_ok);
    }
}

/// One reconcile cycle, with every agent call answering as `agent_ok` says.
fn run_cycle(store: &mut Store, strategy: SchedulingStrategy, now_ms: i64, agent_ok: bool) {
    controller::check_node_health(store, now_ms, NODE_TIMEOUT_MS);
    let deployments = store.list_deployments();
    for d in &deployments {
        let to_terminate = controller::reconcile_deployment(store, d);
        for pod_id in to_terminate {
            run_termination(store, pod_id, agent_ok);
        }
    }
    // Complete the terminations users have asked for.
    for pod_id in controller::collect_terminating_pods(store) {
        run_termination(store, pod_id, agent_ok);
    }
    let scheduler = Scheduler::new().with_strategy(strategy);
    let pending: Vec<kago::models::Pod> = store
        .get_unassigned_pods()
        .into_iter()
        .filter(|p| p.status == PodStatus::Pending)
        .collect();
    let mut cache = scheduler::build_node_cache(store);
    for pod in &pending {
        if let Some(call) = scheduler.schedule_one(store, &mut cache, pod) {
            scheduler.complete_binding(
                store,
                &mut cache,
                call.pod_id,
                call.node_name.as_str(),
                &call.resources,
                agent_ok,
            );
        }
    }
    store.remove_terminated_pods();
}

fn sorted_pod_names(store: &Store) -> Vec<String> {
    let mut names: Vec<String> = store.list_pods().into_iter().map(|p| p.name).collect();
    names.sort();
    names
}

#[test]
fn test_scale_up_from_zero() {
    let mut store = Store::new();
    register(&mut store, "w1", 4000, 8192, 0);
    post_deployment(&mut store, "web", "nginx", 3, 500, 256);

    run_cycle(&mut store, SchedulingStrategy::FirstFit, 0, true);
    run_cycle(&mut store, SchedulingStrategy::FirstFit, 5000, true);

    assert_eq!(sorted_pod_names(&store), vec!["web-0", "web-1", "web-2"]);
    for pod in store.list_pods() {
        assert_eq!(pod.node_name.as_deref(), Some("w1"));
        assert_eq!(pod.status, PodStatus::Running);
    }
    let node = store.get_node("w1").unwrap();
    assert_eq!(node.used.cpu_millis, 1500);
    assert_eq!(node.used.memory_mb, 768);
}

#[test]
fn test_scale_down() {
    let mut store = Store::new();
    register(&mut store, "w1", 4000, 8192, 0);
    post_deployment(&mut store, "web", "nginx", 3, 500, 256);
    run_cycle(&mut store, SchedulingStrategy::FirstFit, 0, true);

    api::update_deployment(
        &mut store,
        "web",
        UpdateDeploymentRequest {
            replicas: Some(1),
            image: None,
        },
    )
    .expect("update");

    run_cycle(&mut store, SchedulingStrategy::FirstFit, 5000, true);

    // web-2 and web-1 (newest names first) were terminated and collected.
    assert_eq!(sorted_pod_names(&store), vec!["web-0"]);
    let survivor = &store.list_pods()[0];
    assert_eq!(survivor.status, PodStatus::Running);
    let node = store.get_node("w1").unwrap();
    assert_eq!(node.used.cpu_millis, 500);
    assert_eq!(node.used.memory_mb, 256);
}

#[test]
fn test_rolling_update() {
    let mut store = Store::new();
    register(&mut store, "w1", 4000, 8192, 0);
    post_deployment(&mut store, "web", "nginx", 3, 500, 256);
    run_cycle(&mut store, SchedulingStrategy::FirstFit, 0, true);

    let updated = api::update_deployment(
        &mut store,
        "web",
        UpdateDeploymentRequest {
            replicas: None,
            image: Some("nginx:2".to_string()),
        },
    )
    .expect("update");
    assert_eq!(updated.revision, 2);

    // First update cycle: one surge pod appears (total four), nothing
    // retired before it runs.
    run_cycle(&mut store, SchedulingStrategy::FirstFit, 5000, true);
    assert_eq!(store.list_pods().len(), 4);
    assert_eq!(store.count_active_pods_for_revision("web", 2), 1);
    assert!(store.count_running_pods_for_deployment("web") >= 3);

    // Keep cycling until the update completes; availability never dips
    // below the desired three running pods at any cycle boundary.
    let mut now = 10_000;
    for _ in 0..10 {
        run_cycle(&mut store, SchedulingStrategy::FirstFit, now, true);
        assert!(store.count_running_pods_for_deployment("web") >= 3);
        assert!(store.count_active_pods_for_deployment("web") <= 4);
        now += 5000;
    }
    assert_eq!(store.get_old_revision_pods("web", 2).len(), 0);
    assert_eq!(store.count_running_pods_for_revision("web", 2), 3);
    assert_eq!(store.list_pods().len(), 3);
}

#[test]
fn test_no_suitable_node() {
    let mut store = Store::new();
    register(&mut store, "w1", 1000, 1024, 0);
    post_deployment(&mut store, "big", "nginx", 1, 2000, 2048);

    run_cycle(&mut store, SchedulingStrategy::FirstFit, 0, true);
    let pods = store.list_pods();
    assert_eq!(pods.len(), 1);
    assert_eq!(pods[0].status, PodStatus::Pending);
    assert!(pods[0].node_name.is_none());

    register(&mut store, "w2", 4000, 4096, 1000);
    run_cycle(&mut store, SchedulingStrategy::FirstFit, 5000, true);
    let pods = store.list_pods();
    assert_eq!(pods[0].node_name.as_deref(), Some("w2"));
    assert_eq!(pods[0].status, PodStatus::Running);
}

#[test]
fn test_node_failure() {
    let mut store = Store::new();
    register(&mut store, "w1", 4000, 8192, 0);
    post_deployment(&mut store, "web", "nginx", 3, 500, 256);
    run_cycle(&mut store, SchedulingStrategy::FirstFit, 0, true);

    // No heartbeats arrive; past the timeout the node turns NotReady.
    run_cycle(&mut store, SchedulingStrategy::FirstFit, 31_000, true);
    assert_eq!(
        store.get_node("w1").unwrap().status,
        kago::models::NodeStatus::NotReady
    );

    // Pods keep their assignment: no rescheduling away from a silent node.
    for pod in store.list_pods() {
        assert_eq!(pod.node_name.as_deref(), Some("w1"));
    }

    // Deleting the node still leaves the pods assigned by name.
    store.delete_node("w1");
    run_cycle(&mut store, SchedulingStrategy::FirstFit, 36_000, true);
    for pod in store.list_pods() {
        assert_eq!(pod.node_name.as_deref(), Some("w1"));
    }
}

#[test]
fn test_scheduler_strategies() {
    let mut store = Store::new();
    register(&mut store, "w1", 4000, 4096, 0);
    register(&mut store, "w2", 4000, 4096, 0);
    store.update_node_resources(
        "w1",
        Resources {
            cpu_millis: 3000,
            memory_mb: 3000,
        },
    );
    store.update_node_resources(
        "w2",
        Resources {
            cpu_millis: 500,
            memory_mb: 500,
        },
    );
    let req = Resources {
        cpu_millis: 500,
        memory_mb: 512,
    };

    let cache = scheduler::build_node_cache(&store);
    let picks = [
        (SchedulingStrategy::FirstFit, "w1"),
        (SchedulingStrategy::BestFit, "w1"),
        (SchedulingStrategy::LeastAllocated, "w2"),
        (SchedulingStrategy::Balanced, "w2"),
    ];
    for (strategy, expected) in picks {
        let scheduler = Scheduler::new().with_strategy(strategy);
        let idx = scheduler.select_node(&cache, &req).expect("a node fits");
        assert_eq!(cache[idx].name, expected, "strategy {:?}", strategy);
    }
}

#[test]
fn test_bind_failure_releases_reservation() {
    let mut store = Store::new();
    register(&mut store, "w1", 4000, 8192, 0);
    post_deployment(&mut store, "web", "nginx", 1, 500, 256);

    // The agent refuses the create call: the pod fails and the node's
    // reservation is released.
    run_cycle(&mut store, SchedulingStrategy::FirstFit, 0, false);
    let pods = store.list_pods();
    assert_eq!(pods.len(), 1);
    assert_eq!(pods[0].status, PodStatus::Failed);
    let node = store.get_node("w1").unwrap();
    assert_eq!(node.used.cpu_millis, 0);
    assert_eq!(node.used.memory_mb, 0);

    // The failed pod no longer counts toward the replicas; the next cycle
    // replaces it.
    run_cycle(&mut store, SchedulingStrategy::FirstFit, 5000, true);
    assert_eq!(store.count_running_pods_for_deployment("web"), 1);
}

#[test]
fn test_termination_revert_on_failure() {
    let mut store = Store::new();
    register(&mut store, "w1", 4000, 8192, 0);
    post_deployment(&mut store, "web", "nginx", 1, 500, 256);
    run_cycle(&mut store, SchedulingStrategy::FirstFit, 0, true);

    let pod_id = store.list_pods()[0].id;
    match controller::begin_pod_termination(&mut store, pod_id) {
        TerminationStep::AgentCall { pod_name, endpoint } => {
            assert_eq!(pod_name, "web-0");
            assert_eq!(endpoint, "http://localhost:8081");
        }
        other => panic!("expected an agent call, got {:?}", other),
    }
    assert_eq!(
        store.get_pod(pod_id).unwrap().status,
        PodStatus::Terminating
    );

    // The agent's delete fails: the pod reverts to Running and keeps its
    // reservation.
    controller::finish_pod_termination(&mut store, pod_id, false);
    assert_eq!(store.get_pod(pod_id).unwrap().status, PodStatus::Running);
    assert_eq!(store.get_node("w1").unwrap().used.cpu_millis, 500);
}

#[test]
fn test_termination_idempotent() {
    let mut store = Store::new();
    register(&mut store, "w1", 4000, 8192, 0);
    post_deployment(&mut store, "web", "nginx", 2, 500, 256);
    run_cycle(&mut store, SchedulingStrategy::FirstFit, 0, true);

    let pod_id = store.list_pods()[0].id;
    run_termination(&mut store, pod_id, true);
    assert_eq!(store.get_pod(pod_id).unwrap().status, PodStatus::Terminated);
    assert_eq!(store.get_node("w1").unwrap().used.cpu_millis, 500);

    // A repeated termination before collection leaves the terminated pod
    // untouched: no resurrection, and the other pod's reservation is not
    // released a second time.
    let step = controller::begin_pod_termination(&mut store, pod_id);
    assert!(matches!(step, TerminationStep::AlreadyTerminated));
    assert_eq!(store.get_pod(pod_id).unwrap().status, PodStatus::Terminated);
    assert_eq!(store.get_node("w1").unwrap().used.cpu_millis, 500);

    store.remove_terminated_pods();

    // And after collection the same call finds nothing and changes nothing.
    let step = controller::begin_pod_termination(&mut store, pod_id);
    assert!(matches!(step, TerminationStep::NotFound));
    assert!(store.get_pod(pod_id).is_none());
    assert_eq!(store.get_node("w1").unwrap().used.cpu_millis, 500);
}

#[test]
fn test_user_pod_delete_completes() {
    let mut store = Store::new();
    register(&mut store, "w1", 4000, 8192, 0);
    post_deployment(&mut store, "web", "nginx", 3, 500, 256);
    run_cycle(&mut store, SchedulingStrategy::FirstFit, 0, true);

    // The user's delete only marks the pod; the store still holds it.
    let victim = store.list_pods()[0].id;
    api::delete_pod(&mut store, victim).expect("pod exists");
    assert_eq!(store.get_pod(victim).unwrap().status, PodStatus::Terminating);

    // The next cycle completes the termination, frees the reservation, and
    // the drop below the desired count is refilled on the cycle after.
    run_cycle(&mut store, SchedulingStrategy::FirstFit, 5000, true);
    assert!(store.get_pod(victim).is_none());
    assert_eq!(store.count_active_pods_for_deployment("web"), 2);
    assert_eq!(store.get_node("w1").unwrap().used.cpu_millis, 1000);

    run_cycle(&mut store, SchedulingStrategy::FirstFit, 10_000, true);
    assert_eq!(store.count_running_pods_for_deployment("web"), 3);
    assert_eq!(store.get_node("w1").unwrap().used.cpu_millis, 1500);
}

#[test]
fn test_terminate_deployment_targets() {
    let mut store = Store::new();
    register(&mut store, "w1", 4000, 8192, 0);
    post_deployment(&mut store, "web", "nginx", 2, 500, 256);
    run_cycle(&mut store, SchedulingStrategy::FirstFit, 0, true);

    api::delete_deployment(&mut store, "web").expect("delete");
    let targets = controller::terminate_deployment(&store, "web");
    assert_eq!(targets.len(), 2);
    for pod_id in targets {
        run_termination(&mut store, pod_id, true);
    }
    store.remove_terminated_pods();
    assert!(store.list_pods().is_empty());
    assert_eq!(store.get_node("w1").unwrap().used.cpu_millis, 0);
}

#[test]
fn test_node_usage_matches_pod_sum() {
    // After a quiet cycle, each node's recorded usage equals the sum of the
    // requests of the pods charged to it.
    let mut store = Store::new();
    register(&mut store, "w1", 4000, 8192, 0);
    register(&mut store, "w2", 4000, 8192, 0);
    post_deployment(&mut store, "web", "nginx", 3, 500, 256);
    post_deployment(&mut store, "api", "httpd", 2, 300, 128);
    run_cycle(&mut store, SchedulingStrategy::LeastAllocated, 0, true);
    run_cycle(&mut store, SchedulingStrategy::LeastAllocated, 5000, true);

    for node in store.list_nodes() {
        let mut cpu = 0u32;
        let mut mem = 0u32;
        for pod in store.list_pods() {
            let charged = matches!(
                pod.status,
                PodStatus::Creating | PodStatus::Running | PodStatus::Terminating
            );
            if charged && pod.node_name.as_deref() == Some(node.name.as_str()) {
                cpu += pod.resources.cpu_millis;
                mem += pod.resources.memory_mb;
            }
        }
        assert_eq!(node.used.cpu_millis, cpu, "cpu on {}", node.name);
        assert_eq!(node.used.memory_mb, mem, "memory on {}", node.name);
    }
}
