use kago::agent::ManagedPod;
use kago::models::{Deployment, Node, Pod, PodStatus, Resources, RollingUpdateConfig};

#[test]
fn test_managed_pod_creation() {
    let pod = ManagedPod {
        pod_id: uuid::Uuid::new_v4().as_u128(),
        name: "test-pod".to_string(),
        resources: Resources {
            cpu_millis: 100,
            memory_mb: 128,
        },
        container_id: None,
        status: PodStatus::Pending,
    };

    assert_eq!(pod.name, "test-pod");
    assert_eq!(pod.status, PodStatus::Pending);
}

#[test]
fn test_resources_calculation() {
    let r1 = Resources {
        cpu_millis: 100,
        memory_mb: 256,
    };
    let r2 = Resources {
        cpu_millis: 200,
        memory_mb: 512,
    };

    assert!(r2.fits(&r1));
    assert!(!r1.fits(&r2));

    let diff = r2.subtract(&r1);
    assert_eq!(diff.cpu_millis, 100);
    assert_eq!(diff.memory_mb, 256);
}

#[test]
fn test_pod_from_deployment_fields() {
    let deployment = Deployment {
        name: "api".to_string(),
        image: "httpd:alpine".to_string(),
        replicas: 2,
        resources: Resources {
            cpu_millis: 250,
            memory_mb: 64,
        },
        rolling_update: RollingUpdateConfig::default(),
        revision: 7,
    };
    let pod = Pod::from_deployment(&deployment, 12);
    assert_eq!(pod.name, "api-12");
    assert_eq!(pod.image, "httpd:alpine");
    assert_eq!(pod.resources.cpu_millis, 250);
    assert_eq!(pod.deployment_name.as_deref(), Some("api"));
    assert_eq!(pod.status, PodStatus::Pending);
    assert!(pod.container_id.is_none());
    assert!(pod.node_name.is_none());
    assert_eq!(pod.revision, 7);
}

#[test]
fn test_node_endpoint_and_availability() {
    let mut node = Node::new(
        "w1".to_string(),
        "10.0.0.5".to_string(),
        8081,
        Resources {
            cpu_millis: 4000,
            memory_mb: 8192,
        },
        123,
    );
    assert_eq!(node.endpoint(), "http://10.0.0.5:8081");
    assert_eq!(node.last_heartbeat, 123);
    node.used = Resources {
        cpu_millis: 1500,
        memory_mb: 768,
    };
    let avail = node.available_resources();
    assert_eq!(avail.cpu_millis, 2500);
    assert_eq!(avail.memory_mb, 7424);
    assert!(node.can_fit(&Resources {
        cpu_millis: 2500,
        memory_mb: 7424,
    }));
    assert!(!node.can_fit(&Resources {
        cpu_millis: 2501,
        memory_mb: 1,
    }));
}

#[test]
fn test_saturating_subtract() {
    let small = Resources {
        cpu_millis: 10,
        memory_mb: 10,
    };
    let big = Resources {
        cpu_millis: 100,
        memory_mb: 100,
    };
    let diff = small.subtract(&big);
    assert_eq!(diff.cpu_millis, 0);
    assert_eq!(diff.memory_mb, 0);
}
