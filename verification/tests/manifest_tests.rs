use kago::error::CliError;
use kago::manifest::{
    CpuValue, DeploymentManifest, DeploymentSpec, Kind, MemoryValue, ResourceSpec,
};

#[test]
fn test_cpu_value_parsing() {
    assert_eq!(CpuValue::String("100m".to_string()).to_millis(), 100);
    assert_eq!(CpuValue::String("1".to_string()).to_millis(), 1000);
    assert_eq!(CpuValue::String("0.5".to_string()).to_millis(), 500);
    assert_eq!(CpuValue::Millis(200).to_millis(), 200);
}

#[test]
fn test_memory_value_parsing() {
    assert_eq!(MemoryValue::String("128Mi".to_string()).to_megabytes(), 128);
    assert_eq!(MemoryValue::String("1Gi".to_string()).to_megabytes(), 1024);
    assert_eq!(MemoryValue::String("256M".to_string()).to_megabytes(), 256);
    assert_eq!(MemoryValue::String("2G".to_string()).to_megabytes(), 2048);
    assert_eq!(MemoryValue::Megabytes(512).to_megabytes(), 512);
}

#[test]
fn test_cpu_value_edges() {
    assert_eq!(CpuValue::String("  250m ".to_string()).to_millis(), 250);
    assert_eq!(CpuValue::String("2.75".to_string()).to_millis(), 2750);
    assert_eq!(CpuValue::String(".5".to_string()).to_millis(), 500);
    assert_eq!(CpuValue::String("1.".to_string()).to_millis(), 1000);
    assert_eq!(CpuValue::String("0.1234".to_string()).to_millis(), 123);
    assert_eq!(CpuValue::String("".to_string()).to_millis(), 0);
    assert_eq!(CpuValue::String("abc".to_string()).to_millis(), 0);
    assert_eq!(CpuValue::String("-1".to_string()).to_millis(), 0);
    assert_eq!(CpuValue::String(".".to_string()).to_millis(), 0);
}

#[test]
fn test_memory_value_edges() {
    assert_eq!(MemoryValue::String(" 64Mi ".to_string()).to_megabytes(), 64);
    assert_eq!(MemoryValue::String("512".to_string()).to_megabytes(), 512);
    assert_eq!(MemoryValue::String("zzz".to_string()).to_megabytes(), 0);
    assert_eq!(MemoryValue::String("Mi".to_string()).to_megabytes(), 0);
    // 2^22 gibibytes saturate the wire type instead of overflowing
    assert_eq!(
        MemoryValue::String("4194304G".to_string()).to_megabytes(),
        u32::MAX
    );
}

#[test]
fn test_validate_rejects_empty_name() {
    let manifest = DeploymentManifest {
        kind: Kind::Deployment,
        spec: DeploymentSpec {
            name: "".to_string(),
            image: "nginx".to_string(),
            replicas: 1,
            resources: ResourceSpec::default(),
        },
    };
    match manifest.validate() {
        Err(CliError::InvalidManifest(m)) => assert_eq!(m, "name cannot be empty"),
        _ => panic!("expected an invalid-manifest error"),
    }
}

#[test]
fn test_validate_rejects_empty_image() {
    let manifest = DeploymentManifest {
        kind: Kind::Deployment,
        spec: DeploymentSpec {
            name: "web".to_string(),
            image: "".to_string(),
            replicas: 1,
            resources: ResourceSpec::default(),
        },
    };
    match manifest.validate() {
        Err(CliError::InvalidManifest(m)) => assert_eq!(m, "image cannot be empty"),
        _ => panic!("expected an invalid-manifest error"),
    }
}

#[test]
fn test_to_create_request() {
    let manifest = DeploymentManifest {
        kind: Kind::Deployment,
        spec: DeploymentSpec {
            name: "web".to_string(),
            image: "nginx:latest".to_string(),
            replicas: 3,
            resources: ResourceSpec {
                cpu: Some(CpuValue::String("100m".to_string())),
                memory: Some(MemoryValue::String("128Mi".to_string())),
            },
        },
    };
    assert!(manifest.validate().is_ok());
    let request = manifest.to_create_request();
    assert_eq!(request.name, "web");
    assert_eq!(request.image, "nginx:latest");
    assert_eq!(request.replicas, 3);
    assert_eq!(request.resources.cpu_millis, 100);
    assert_eq!(request.resources.memory_mb, 128);
    assert_eq!(request.rolling_update.max_surge, 1);
    assert_eq!(request.rolling_update.max_unavailable, 0);
}

#[test]
fn test_to_create_request_defaults_missing_resources() {
    let manifest = DeploymentManifest {
        kind: Kind::Deployment,
        spec: DeploymentSpec {
            name: "simple".to_string(),
            image: "alpine:latest".to_string(),
            replicas: 1,
            resources: ResourceSpec::default(),
        },
    };
    let request = manifest.to_create_request();
    assert_eq!(request.resources.cpu_millis, 0);
    assert_eq!(request.resources.memory_mb, 0);
}
