//! The web-facing helpers: status classes and creation-form
//! normalization.

use simple_docker_manager::models::ContainerPortMapping;
use simple_docker_manager::models::EnvironmentVariable;
use simple_docker_manager::web::contains_ci;
use simple_docker_manager::web::get_status_class;
use simple_docker_manager::web::normalize_create_request;

#[test]
fn test_get_status_class() {
    assert_eq!(get_status_class("running"), "status-running");
    assert_eq!(get_status_class("Up 2 hours"), "status-running");
    assert_eq!(get_status_class("Exited (0) 3 minutes ago"), "status-exited");
    assert_eq!(get_status_class("Created"), "status-exited");
    assert_eq!(get_status_class("stopped"), "status-exited");
    assert_eq!(get_status_class("restarting"), "status-other");
    assert_eq!(get_status_class(""), "status-other");
}

#[test]
fn test_contains_ci() {
    assert!(contains_ci("RUNNING", "running"));
    assert!(contains_ci("Up 2 hours", "up"));
    assert!(!contains_ci("paused", "running"));
    assert!(contains_ci("anything", ""));
}

#[test]
fn test_normalize_create_request() {
    let r = normalize_create_request(
        "nginx:latest".to_string(),
        Some("  ".to_string()),
        vec![EnvironmentVariable { key: "A".to_string(), value: "1".to_string() }],
        vec![ContainerPortMapping {
            container_port: 80,
            host_port: None,
            protocol: "tcp".to_string(),
        }],
        Some("".to_string()),
    );
    assert_eq!(r.image_name, "nginx:latest");
    // Blank fields count as not supplied.
    assert!(r.container_name.is_none());
    assert!(r.restart_policy.is_none());
    assert_eq!(r.environment_variables.len(), 1);
    assert_eq!(r.port_mappings.len(), 1);

    let r = normalize_create_request(
        "redis".to_string(),
        Some("cache".to_string()),
        vec![],
        vec![],
        Some("always".to_string()),
    );
    assert_eq!(r.container_name.as_deref(), Some("cache"));
    assert_eq!(r.restart_policy.as_deref(), Some("always"));
}
