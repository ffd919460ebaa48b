//! The metrics calculator: CPU and memory percentages and summed
//! counters, with the documented guards.

use simple_docker_manager::metrics::blkio_total;
use simple_docker_manager::metrics::compute_container_metrics;
use simple_docker_manager::metrics::compute_cpu_percent_milli;
use simple_docker_manager::metrics::compute_memory_percent_milli;
use simple_docker_manager::metrics::sum_network;
use simple_docker_manager::metrics::system_metrics_from_counts;
use simple_docker_manager::metrics::BlkioEntry;
use simple_docker_manager::metrics::NetworkCounters;
use simple_docker_manager::metrics::StatsSnapshot;

#[test]
fn test_cpu_percent() {
    // cpu_delta = 200000000, system_delta = 1000000000, 4 cpus:
    // (0.2 x 4 x 100)% = 80%, i.e. 80000 milli-percent.
    let r = compute_cpu_percent_milli(
        Some(200000000),
        Some(0),
        Some(1000000000),
        Some(0),
        Some(4),
    );
    assert_eq!(r, 80000);
}

#[test]
fn test_cpu_percent_zero_system_delta() {
    // A system delta of zero reports 0 regardless of the cpu delta.
    let r = compute_cpu_percent_milli(Some(200000000), Some(0), Some(5), Some(5), Some(4));
    assert_eq!(r, 0);
    let r = compute_cpu_percent_milli(Some(u64::MAX), Some(0), None, None, Some(4));
    assert_eq!(r, 0);
}

#[test]
fn test_cpu_percent_defaults_one_cpu() {
    let r = compute_cpu_percent_milli(Some(500), Some(0), Some(1000), Some(0), None);
    assert_eq!(r, 50000);
}

#[test]
fn test_memory_percent() {
    // 100 MiB of a 2 GiB limit: 4.8828125%, floored to 4882 milli-percent.
    let r = compute_memory_percent_milli(Some(104857600), Some(2147483648));
    assert_eq!(r, 4882);
    // No limit reports 0.
    assert_eq!(compute_memory_percent_milli(Some(12345), Some(0)), 0);
    assert_eq!(compute_memory_percent_milli(Some(12345), None), 0);
}

#[test]
fn test_network_sums() {
    let interfaces = vec![
        NetworkCounters { rx_bytes: 100, tx_bytes: 7 },
        NetworkCounters { rx_bytes: 23, tx_bytes: 5 },
    ];
    assert_eq!(sum_network(&interfaces), (123, 12));
    assert_eq!(sum_network(&vec![]), (0, 0));
    // Sums saturate instead of wrapping.
    let big = vec![
        NetworkCounters { rx_bytes: u64::MAX, tx_bytes: 1 },
        NetworkCounters { rx_bytes: 1, tx_bytes: 1 },
    ];
    assert_eq!(sum_network(&big).0, u64::MAX);
}

#[test]
fn test_blkio_totals() {
    let entries = vec![
        BlkioEntry { op: "read".to_string(), value: 100 },
        BlkioEntry { op: "write".to_string(), value: 40 },
        BlkioEntry { op: "read".to_string(), value: 23 },
        BlkioEntry { op: "total".to_string(), value: 999 },
    ];
    assert_eq!(blkio_total(&entries, "read"), 123);
    assert_eq!(blkio_total(&entries, "write"), 40);
    assert_eq!(blkio_total(&vec![], "read"), 0);
}

#[test]
fn test_compute_container_metrics() {
    let stats = StatsSnapshot {
        cpu_total_usage: Some(200000000),
        precpu_total_usage: Some(0),
        system_cpu_usage: Some(1000000000),
        presystem_cpu_usage: Some(0),
        online_cpus: Some(4),
        memory_usage: Some(104857600),
        memory_limit: Some(2147483648),
        networks: vec![NetworkCounters { rx_bytes: 10, tx_bytes: 20 }],
        blkio: vec![
            BlkioEntry { op: "read".to_string(), value: 1 },
            BlkioEntry { op: "write".to_string(), value: 2 },
        ],
        pids: Some(9),
    };
    let m = compute_container_metrics("cid".to_string(), "/name", 1700000000, &stats);
    assert_eq!(m.container_id, "cid");
    assert_eq!(m.container_name, "name");
    assert_eq!(m.timestamp, 1700000000);
    assert_eq!(m.cpu_usage_percent_milli, 80000);
    assert_eq!(m.memory_usage_bytes, 104857600);
    assert_eq!(m.memory_limit_bytes, 2147483648);
    assert_eq!(m.memory_usage_percent_milli, 4882);
    assert_eq!(m.network_rx_bytes, 10);
    assert_eq!(m.network_tx_bytes, 20);
    assert_eq!(m.block_read_bytes, 1);
    assert_eq!(m.block_write_bytes, 2);
    assert_eq!(m.pids, 9);
}

#[test]
fn test_absent_counters_count_as_zero() {
    let stats = StatsSnapshot {
        cpu_total_usage: None,
        precpu_total_usage: None,
        system_cpu_usage: None,
        presystem_cpu_usage: None,
        online_cpus: None,
        memory_usage: None,
        memory_limit: None,
        networks: vec![],
        blkio: vec![],
        pids: None,
    };
    let m = compute_container_metrics("cid".to_string(), "x", 0, &stats);
    assert_eq!(m.cpu_usage_percent_milli, 0);
    assert_eq!(m.memory_usage_bytes, 0);
    assert_eq!(m.memory_usage_percent_milli, 0);
    assert_eq!(m.pids, 0);
}

#[test]
fn test_system_metrics_counts() {
    let m = system_metrics_from_counts(7, 12, 5, 34, "27.0.1".to_string());
    assert_eq!(m.timestamp, 7);
    assert_eq!(m.total_containers, 12);
    assert_eq!(m.running_containers, 5);
    assert_eq!(m.total_images, 34);
    assert_eq!(m.docker_version, "27.0.1");
}
