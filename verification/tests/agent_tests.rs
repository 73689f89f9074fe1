use kago::agent::AgentPods;
use kago::models::{CreatePodOnNodeRequest, PodStatus, Resources};
use kago::runtime::ContainerStatus;

fn create_req(id: u128, name: &str, cpu: u32, mem: u32) -> CreatePodOnNodeRequest {
    CreatePodOnNodeRequest {
        pod_id: id,
        name: name.to_string(),
        image: "nginx".to_string(),
        resources: Resources {
            cpu_millis: cpu,
            memory_mb: mem,
        },
    }
}

#[test]
fn test_container_status_parsing() {
    assert_eq!(ContainerStatus::from("running"), ContainerStatus::Running);
    assert_eq!(ContainerStatus::from("Running"), ContainerStatus::Running);
    assert_eq!(ContainerStatus::from("exited"), ContainerStatus::Exited);
    assert_eq!(ContainerStatus::from("created"), ContainerStatus::Created);
    assert_eq!(ContainerStatus::from("foobar"), ContainerStatus::Unknown);
}

#[test]
fn test_create_pod_flow() {
    let mut pods = AgentPods::new();
    let run = pods
        .start_create(&create_req(1, "web-0", 500, 256))
        .expect("new pod accepted");
    assert_eq!(run.name, "web-0");
    assert_eq!(run.image, "nginx");
    assert_eq!(run.cpu_millis, Some(500));
    assert_eq!(run.memory_mb, Some(256));

    // A duplicate pod id is refused (the agent's conflict answer).
    assert!(pods.start_create(&create_req(1, "web-0", 500, 256)).is_none());

    pods.finish_create(1, Some("cid-1".to_string()));
    assert_eq!(pods.pods[0].status, PodStatus::Running);
    assert_eq!(pods.pods[0].container_id.as_deref(), Some("cid-1"));
}

#[test]
fn test_create_pod_zero_resources_have_no_limits() {
    let mut pods = AgentPods::new();
    let run = pods
        .start_create(&create_req(2, "web-1", 0, 0))
        .expect("accepted");
    assert_eq!(run.cpu_millis, None);
    assert_eq!(run.memory_mb, None);
    // The runtime failed to start the container: the pod fails.
    pods.finish_create(2, None);
    assert_eq!(pods.pods[0].status, PodStatus::Failed);
}

#[test]
fn test_delete_pod_flow() {
    let mut pods = AgentPods::new();
    pods.start_create(&create_req(1, "web-0", 100, 128)).unwrap();
    pods.finish_create(1, Some("cid-1".to_string()));

    let (pod_id, container_id) = pods.find_pod_by_name("web-0").expect("known pod");
    assert_eq!(pod_id, 1);
    assert_eq!(container_id.as_deref(), Some("cid-1"));

    pods.mark_terminating(pod_id);
    assert_eq!(pods.pods[0].status, PodStatus::Terminating);

    pods.remove_pod(pod_id);
    assert!(pods.pods.is_empty());
    assert!(pods.find_pod_by_name("web-0").is_none());
}

#[test]
fn test_used_resources_sum_charged_pods_only() {
    let mut pods = AgentPods::new();
    pods.start_create(&create_req(1, "a-0", 100, 256)).unwrap();
    pods.finish_create(1, Some("c1".to_string()));  // Running
    pods.start_create(&create_req(2, "a-1", 200, 512)).unwrap();  // Creating
    pods.start_create(&create_req(3, "a-2", 400, 1024)).unwrap();
    pods.finish_create(3, None);  // Failed: not charged

    let used = pods.calculate_used_resources();
    assert_eq!(used.cpu_millis, 300);
    assert_eq!(used.memory_mb, 768);

    let reports = pods.get_pod_statuses();
    assert_eq!(reports.len(), 3);
    assert_eq!(reports[0].pod_id, 1);
    assert_eq!(reports[0].status, PodStatus::Running);
    assert_eq!(reports[2].status, PodStatus::Failed);
}

#[test]
fn test_sync_container_states() {
    let mut pods = AgentPods::new();
    pods.start_create(&create_req(1, "a-0", 100, 128)).unwrap();
    pods.finish_create(1, Some("c1".to_string()));
    pods.start_create(&create_req(2, "a-1", 100, 128)).unwrap();
    pods.finish_create(2, Some("c2".to_string()));

    let targets = pods.pods_needing_sync();
    assert_eq!(targets.len(), 2);
    assert_eq!(targets[0].1, "a-0");

    // An exited container fails its pod; a created one moves it back to
    // creating; paused leaves it alone.
    pods.apply_container_state(1, ContainerStatus::Exited);
    assert_eq!(pods.pods[0].status, PodStatus::Failed);
    pods.apply_container_state(2, ContainerStatus::Created);
    assert_eq!(pods.pods[1].status, PodStatus::Creating);
    pods.apply_container_state(2, ContainerStatus::Paused);
    assert_eq!(pods.pods[1].status, PodStatus::Creating);

    // A terminating pod is never overwritten by the runtime's view.
    pods.mark_terminating(2);
    pods.apply_container_state(2, ContainerStatus::Running);
    assert_eq!(pods.pods[1].status, PodStatus::Terminating);

    // A vanished container fails the pod, unless it is on its way out.
    pods.apply_container_not_found(1);
    assert_eq!(pods.pods[0].status, PodStatus::Failed);
    pods.apply_container_not_found(2);
    assert_eq!(pods.pods[1].status, PodStatus::Terminating);
}
