//! The wire format: every summary structure comes back field for field.

use simple_docker_manager::codec::decode_container_metrics;
use simple_docker_manager::codec::decode_container_summary;
use simple_docker_manager::codec::decode_local_image_summary;
use simple_docker_manager::codec::decode_metrics_response;
use simple_docker_manager::codec::decode_port_mapping;
use simple_docker_manager::codec::decode_system_metrics;
use simple_docker_manager::codec::encode_container_metrics;
use simple_docker_manager::codec::encode_container_summary;
use simple_docker_manager::codec::encode_local_image_summary;
use simple_docker_manager::codec::encode_metrics_response;
use simple_docker_manager::codec::encode_port_mapping;
use simple_docker_manager::codec::encode_system_metrics;
use simple_docker_manager::models::ContainerMetrics;
use simple_docker_manager::models::ContainerSummary;
use simple_docker_manager::models::LocalImageSummary;
use simple_docker_manager::models::MetricsResponse;
use simple_docker_manager::models::PortMapping;
use simple_docker_manager::models::SystemMetrics;

fn sample_metrics(id: &str) -> ContainerMetrics {
    ContainerMetrics {
        container_id: id.to_string(),
        container_name: "web".to_string(),
        timestamp: -1700000000,
        cpu_usage_percent_milli: 80000,
        memory_usage_bytes: 104857600,
        memory_limit_bytes: 2147483648,
        memory_usage_percent_milli: 4882,
        network_rx_bytes: 123456,
        network_tx_bytes: 654321,
        block_read_bytes: 4096,
        block_write_bytes: 8192,
        pids: 17,
    }
}

#[test]
fn test_container_summary_roundtrip() {
    let summary = ContainerSummary {
        id: "abc123".to_string(),
        name: "web-1".to_string(),
        image: "nginx:latest".to_string(),
        status: "running".to_string(),
        ports: vec![
            PortMapping { container_port: 22, host_port: None, protocol: "tcp".to_string() },
            PortMapping { container_port: 80, host_port: Some(8080), protocol: "tcp".to_string() },
        ],
        environment: vec!["A=1".to_string(), "PATH=/usr/bin".to_string()],
    };
    let encoded = encode_container_summary(&summary);
    let back = decode_container_summary(&encoded).expect("round trip");
    assert_eq!(back.id, summary.id);
    assert_eq!(back.name, summary.name);
    assert_eq!(back.image, summary.image);
    assert_eq!(back.status, summary.status);
    assert_eq!(back.ports.len(), 2);
    assert_eq!(back.ports[0].container_port, 22);
    assert_eq!(back.ports[0].host_port, None);
    assert_eq!(back.ports[1].container_port, 80);
    assert_eq!(back.ports[1].host_port, Some(8080));
    assert_eq!(back.ports[1].protocol, "tcp");
    assert_eq!(back.environment, summary.environment);
}

#[test]
fn test_empty_container_summary_roundtrip() {
    let summary = ContainerSummary {
        id: String::new(),
        name: String::new(),
        image: String::new(),
        status: String::new(),
        ports: vec![],
        environment: vec![],
    };
    let encoded = encode_container_summary(&summary);
    let back = decode_container_summary(&encoded).expect("round trip");
    assert_eq!(back.id, "");
    assert!(back.ports.is_empty());
    assert!(back.environment.is_empty());
}

#[test]
fn test_image_summary_roundtrip() {
    let image = LocalImageSummary {
        id: "sha256:deadbeef".to_string(),
        repo_tags: vec!["ubuntu:latest".to_string(), "ubuntu:22.04".to_string()],
    };
    let encoded = encode_local_image_summary(&image);
    let back = decode_local_image_summary(&encoded).expect("round trip");
    assert_eq!(back.id, image.id);
    assert_eq!(back.repo_tags, image.repo_tags);
}

#[test]
fn test_container_metrics_roundtrip() {
    let metrics = sample_metrics("abc");
    let encoded = encode_container_metrics(&metrics);
    let back = decode_container_metrics(&encoded).expect("round trip");
    assert_eq!(back.container_id, metrics.container_id);
    assert_eq!(back.container_name, metrics.container_name);
    assert_eq!(back.timestamp, metrics.timestamp);
    assert_eq!(back.cpu_usage_percent_milli, metrics.cpu_usage_percent_milli);
    assert_eq!(back.memory_usage_bytes, metrics.memory_usage_bytes);
    assert_eq!(back.memory_limit_bytes, metrics.memory_limit_bytes);
    assert_eq!(back.memory_usage_percent_milli, metrics.memory_usage_percent_milli);
    assert_eq!(back.network_rx_bytes, metrics.network_rx_bytes);
    assert_eq!(back.network_tx_bytes, metrics.network_tx_bytes);
    assert_eq!(back.block_read_bytes, metrics.block_read_bytes);
    assert_eq!(back.block_write_bytes, metrics.block_write_bytes);
    assert_eq!(back.pids, metrics.pids);
}

#[test]
fn test_system_metrics_roundtrip() {
    let system = SystemMetrics {
        timestamp: 1700000000,
        total_containers: 12,
        running_containers: 5,
        total_images: 34,
        docker_version: "27.0.1".to_string(),
    };
    let encoded = encode_system_metrics(&system);
    let back = decode_system_metrics(&encoded).expect("round trip");
    assert_eq!(back.timestamp, system.timestamp);
    assert_eq!(back.total_containers, 12);
    assert_eq!(back.running_containers, 5);
    assert_eq!(back.total_images, 34);
    assert_eq!(back.docker_version, "27.0.1");
}

#[test]
fn test_metrics_response_roundtrip() {
    let response = MetricsResponse {
        system: SystemMetrics {
            timestamp: 0,
            total_containers: 2,
            running_containers: 1,
            total_images: 3,
            docker_version: "test".to_string(),
        },
        containers: vec![sample_metrics("one"), sample_metrics("two")],
    };
    let encoded = encode_metrics_response(&response);
    let back = decode_metrics_response(&encoded).expect("round trip");
    assert_eq!(back.system.total_containers, 2);
    assert_eq!(back.containers.len(), 2);
    assert_eq!(back.containers[0].container_id, "one");
    assert_eq!(back.containers[1].container_id, "two");
    assert_eq!(back.containers[1].pids, 17);
}

#[test]
fn test_decode_rejects_malformed_input() {
    assert!(decode_port_mapping("").is_none());
    assert!(decode_port_mapping("garbage").is_none());
    let good = encode_port_mapping(&PortMapping {
        container_port: 80,
        host_port: None,
        protocol: "udp".to_string(),
    });
    // Truncation and trailing garbage are both rejected.
    assert!(decode_port_mapping(&good[..good.len() - 1]).is_none());
    assert!(decode_port_mapping(&format!("{}x", good)).is_none());
    assert!(decode_container_summary("5;hello").is_none());
}

#[test]
fn test_strings_with_separator_characters_roundtrip() {
    let image = LocalImageSummary {
        id: "id;with:odd-1;2;3".to_string(),
        repo_tags: vec!["a;b".to_string(), "".to_string(), "7;".to_string()],
    };
    let encoded = encode_local_image_summary(&image);
    let back = decode_local_image_summary(&encoded).expect("round trip");
    assert_eq!(back.id, image.id);
    assert_eq!(back.repo_tags, image.repo_tags);
}
