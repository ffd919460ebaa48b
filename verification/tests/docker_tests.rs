//! Engine-response normalization: image filtering, port parsing and
//! sorting, name generation, and the creation plan.

use simple_docker_manager::docker::build_container_summary;
use simple_docker_manager::docker::build_create_plan;
use simple_docker_manager::docker::clean_container_name;
use simple_docker_manager::docker::clean_log_lines;
use simple_docker_manager::docker::filter_images;
use simple_docker_manager::docker::generate_container_name;
use simple_docker_manager::docker::is_image_id;
use simple_docker_manager::docker::parse_env_entries;
use simple_docker_manager::docker::parse_exposed_ports;
use simple_docker_manager::docker::parse_port_key;
use simple_docker_manager::docker::RawPortEntry;
use simple_docker_manager::docker::RestartPolicyKind;
use simple_docker_manager::models::ContainerPortMapping;
use simple_docker_manager::models::CreateContainerRequest;
use simple_docker_manager::models::EnvironmentVariable;
use simple_docker_manager::models::LocalImageSummary;
use simple_docker_manager::sort::sort_ports;
use simple_docker_manager::models::PortMapping;

#[test]
fn test_is_image_id() {
    let hex64 = "a".repeat(64);
    assert!(is_image_id(&hex64));
    assert!(is_image_id("sha256:abc"));
    assert!(is_image_id("<none>:<none>"));
    assert!(!is_image_id("nginx:latest"));
    assert!(!is_image_id("ubuntu"));
    // 64 characters but not all hex: a tag, not an id.
    let not_hex = "g".repeat(64);
    assert!(!is_image_id(&not_hex));
}

#[test]
fn test_clean_container_name() {
    assert_eq!(clean_container_name("/web-1"), "web-1");
    assert_eq!(clean_container_name("web-1"), "web-1");
    assert_eq!(clean_container_name("//double"), "double");
    assert_eq!(clean_container_name(""), "");
}

#[test]
fn test_parse_port_key() {
    assert_eq!(parse_port_key("80/tcp"), (80, "tcp".to_string()));
    assert_eq!(parse_port_key("53/udp"), (53, "udp".to_string()));
    assert_eq!(parse_port_key("8080"), (8080, "tcp".to_string()));
    // Unparsable ports fall back to zero.
    assert_eq!(parse_port_key("notaport/tcp"), (0, "tcp".to_string()));
    assert_eq!(parse_port_key("99999/tcp"), (0, "tcp".to_string()));
}

#[test]
fn test_port_sort_order() {
    let ports = vec![
        PortMapping { container_port: 80, host_port: None, protocol: "tcp".to_string() },
        PortMapping { container_port: 22, host_port: None, protocol: "tcp".to_string() },
        PortMapping { container_port: 80, host_port: None, protocol: "udp".to_string() },
    ];
    let sorted = sort_ports(ports);
    let order: Vec<(u16, String)> =
        sorted.iter().map(|p| (p.container_port, p.protocol.clone())).collect();
    assert_eq!(
        order,
        vec![
            (22, "tcp".to_string()),
            (80, "tcp".to_string()),
            (80, "udp".to_string()),
        ]
    );
}

#[test]
fn test_port_sort_is_stable() {
    // Two mappings with the same sort key keep their original order.
    let ports = vec![
        PortMapping { container_port: 80, host_port: Some(1), protocol: "tcp".to_string() },
        PortMapping { container_port: 80, host_port: Some(2), protocol: "tcp".to_string() },
    ];
    let sorted = sort_ports(ports);
    assert_eq!(sorted[0].host_port, Some(1));
    assert_eq!(sorted[1].host_port, Some(2));
}

#[test]
fn test_build_container_summary_sorts_everything() {
    let raw_ports = vec![
        RawPortEntry {
            key: "80/udp".to_string(),
            host_ports: vec![None],
        },
        RawPortEntry {
            key: "80/tcp".to_string(),
            host_ports: vec![Some("8080".to_string()), Some("notaport".to_string())],
        },
        RawPortEntry {
            key: "22/tcp".to_string(),
            host_ports: vec![Some("2222".to_string())],
        },
    ];
    let summary = build_container_summary(
        "id1".to_string(),
        "/web",
        "nginx:latest".to_string(),
        "running".to_string(),
        &raw_ports,
        vec!["Z=last".to_string(), "A=first".to_string()],
    );
    assert_eq!(summary.name, "web");
    let order: Vec<(u16, Option<u16>, String)> = summary
        .ports
        .iter()
        .map(|p| (p.container_port, p.host_port, p.protocol.clone()))
        .collect();
    assert_eq!(
        order,
        vec![
            (22, Some(2222), "tcp".to_string()),
            (80, Some(8080), "tcp".to_string()),
            (80, None, "tcp".to_string()),
            (80, None, "udp".to_string()),
        ]
    );
    assert_eq!(summary.environment, vec!["A=first".to_string(), "Z=last".to_string()]);
}

#[test]
fn test_image_exclusion() {
    let images = vec![
        LocalImageSummary {
            id: "only-placeholder".to_string(),
            repo_tags: vec!["<none>:<none>".to_string()],
        },
        LocalImageSummary {
            id: "real".to_string(),
            repo_tags: vec!["x:latest".to_string(), "<none>:<none>".to_string()],
        },
        LocalImageSummary { id: "untagged".to_string(), repo_tags: vec![] },
    ];
    let kept = filter_images(images);
    assert_eq!(kept.len(), 1);
    assert_eq!(kept[0].id, "real");
    assert_eq!(kept[0].repo_tags.len(), 2);
}

#[test]
fn test_generate_container_name() {
    assert_eq!(generate_container_name("nginx:latest", 1234), "nginx-1234");
    assert_eq!(generate_container_name("library/nginx:1.2", 7), "library-nginx-7");
    // The suffix is the time modulo 10000.
    assert_eq!(generate_container_name("redis", 123456), "redis-3456");
}

#[test]
fn test_build_create_plan() {
    let request = CreateContainerRequest {
        image_name: "nginx:latest".to_string(),
        container_name: None,
        environment_variables: vec![
            EnvironmentVariable { key: "A".to_string(), value: "1".to_string() },
            EnvironmentVariable { key: "B".to_string(), value: "x=y".to_string() },
        ],
        port_mappings: vec![
            ContainerPortMapping { container_port: 80, host_port: None, protocol: "tcp".to_string() },
            ContainerPortMapping { container_port: 0, host_port: Some(9), protocol: "tcp".to_string() },
            ContainerPortMapping {
                container_port: 443,
                host_port: Some(8443),
                protocol: "tcp".to_string(),
            },
        ],
        restart_policy: Some("on-failure".to_string()),
    };
    let plan = build_create_plan(&request, 42);
    assert_eq!(plan.container_name, "nginx-42");
    assert_eq!(plan.env, vec!["A=1".to_string(), "B=x=y".to_string()]);
    // The zero port is the "not specified" sentinel and is skipped; an
    // absent host port defaults to the container port.
    assert_eq!(plan.port_specs.len(), 2);
    assert_eq!(plan.port_specs[0].key, "80/tcp");
    assert_eq!(plan.port_specs[0].host_port, 80);
    assert_eq!(plan.port_specs[1].key, "443/tcp");
    assert_eq!(plan.port_specs[1].host_port, 8443);
    let policy = plan.restart_policy.expect("policy requested");
    assert!(matches!(policy.kind, RestartPolicyKind::OnFailure));
    assert_eq!(policy.maximum_retry_count, Some(3));
}

#[test]
fn test_create_plan_policy_fallback() {
    let base = CreateContainerRequest {
        image_name: "redis".to_string(),
        container_name: Some("cache".to_string()),
        environment_variables: vec![],
        port_mappings: vec![],
        restart_policy: Some("surprise-me".to_string()),
    };
    // An unrecognized policy string deliberately falls back to Never.
    let plan = build_create_plan(&base, 0);
    assert_eq!(plan.container_name, "cache");
    let policy = plan.restart_policy.expect("policy requested");
    assert!(matches!(policy.kind, RestartPolicyKind::Never));
    assert_eq!(policy.maximum_retry_count, None);

    let mut always = base;
    always.restart_policy = Some("always".to_string());
    let plan = build_create_plan(&always, 0);
    let policy = plan.restart_policy.expect("policy requested");
    assert!(matches!(policy.kind, RestartPolicyKind::Always));
    assert_eq!(policy.maximum_retry_count, None);
}

#[test]
fn test_parse_exposed_ports() {
    let keys = vec![
        "443/tcp".to_string(),
        "80/tcp".to_string(),
        "bogus".to_string(),
        "notanumber/tcp".to_string(),
    ];
    let ports = parse_exposed_ports(&keys);
    assert_eq!(ports.len(), 2);
    assert_eq!(ports[0].container_port, 80);
    assert_eq!(ports[0].host_port, None);
    assert_eq!(ports[0].protocol, "tcp");
    assert_eq!(ports[1].container_port, 443);
}

#[test]
fn test_exposed_port_sort_is_stable() {
    // Equal container ports keep their original order: the sort key is
    // the port alone, so tcp stays before udp here.
    let keys = vec!["80/tcp".to_string(), "80/udp".to_string(), "22/tcp".to_string()];
    let ports = parse_exposed_ports(&keys);
    assert_eq!(ports.len(), 3);
    assert_eq!(ports[0].container_port, 22);
    assert_eq!(ports[1].container_port, 80);
    assert_eq!(ports[1].protocol, "tcp");
    assert_eq!(ports[2].container_port, 80);
    assert_eq!(ports[2].protocol, "udp");
}

#[test]
fn test_env_sort_is_stable() {
    // Entries sharing a key keep their original order.
    let lines = vec!["B=second".to_string(), "A=1".to_string(), "B=first?no:later".to_string()];
    let entries = parse_env_entries(&lines);
    assert_eq!(entries.len(), 3);
    assert_eq!(entries[0].key, "A");
    assert_eq!(entries[1].key, "B");
    assert_eq!(entries[1].value, "second");
    assert_eq!(entries[2].key, "B");
    assert_eq!(entries[2].value, "first?no:later");
}

#[test]
fn test_parse_env_entries() {
    let lines = vec![
        "PATH=/usr/bin:/bin".to_string(),
        "A=1=2".to_string(),
        "NOEQUALS".to_string(),
    ];
    let entries = parse_env_entries(&lines);
    assert_eq!(entries.len(), 2);
    assert_eq!(entries[0].key, "A");
    assert_eq!(entries[0].value, "1=2");
    assert_eq!(entries[1].key, "PATH");
    assert_eq!(entries[1].value, "/usr/bin:/bin");
}

#[test]
fn test_clean_log_lines() {
    let lines = vec![
        "  hello  ".to_string(),
        "".to_string(),
        "   ".to_string(),
        "world".to_string(),
    ];
    let cleaned = clean_log_lines(&lines);
    assert_eq!(cleaned, vec!["hello".to_string(), "world".to_string()]);
}
