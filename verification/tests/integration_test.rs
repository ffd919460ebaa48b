//! Configuration defaults and the wire round trip of the models.

use simple_docker_manager::codec::decode_port_mapping;
use simple_docker_manager::codec::encode_port_mapping;
use simple_docker_manager::config::Config;
use simple_docker_manager::models::PortMapping;

#[test]
fn test_config_integration() {
    // Test that config can be created with defaults
    let config = Config::default();

    assert_eq!(config.host, "0.0.0.0");
    assert_eq!(config.port, 3000);
    assert!(config.auth_enabled);

    // Test bind address generation
    let bind_addr = config.bind_address();
    assert_eq!(bind_addr, "0.0.0.0:3000");
}

#[test]
fn test_models_roundtrip() {
    // Test that models can be encoded and decoded through the wire format
    let port = PortMapping {
        container_port: 8080,
        host_port: Some(80),
        protocol: "tcp".to_string(),
    };

    let encoded = encode_port_mapping(&port);
    let deserialized = decode_port_mapping(&encoded).expect("Should deserialize");

    assert_eq!(deserialized.container_port, port.container_port);
    assert_eq!(deserialized.host_port, port.host_port);
    assert_eq!(deserialized.protocol, port.protocol);
}

#[test]
fn test_config_default_details() {
    let config = Config::default();
    assert_eq!(config.log_level, "info");
    assert!(config.docker_socket.is_none());
    assert_eq!(config.metrics_interval_seconds, 5);
    assert_eq!(config.metrics_history_limit, 20);
    assert_eq!(config.shutdown_timeout_seconds, 30);
    assert_eq!(config.auth_username, "admin");
    assert!(config.auth_password.is_none());
    assert!(config.auth_password_hash.is_none());
    assert_eq!(config.session_timeout_seconds, 3600);
}

#[test]
fn test_bind_address_other_port() {
    let mut config = Config::default();
    config.host = "127.0.0.1".to_string();
    config.port = 65535;
    assert_eq!(config.bind_address(), "127.0.0.1:65535");
}
