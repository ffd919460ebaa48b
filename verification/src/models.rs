//! The data shapes this system hands to its presentation layer:
//! normalized container, image and metric summaries, and the request
//! shape for creating a container. Each type has a mathematical view.

use vstd::prelude::*;

verus! {

/// One published port of a running container.
pub struct PortMapping {
    pub container_port: u16,
    pub host_port: Option<u16>,
    pub protocol: String,
}

pub struct PortMappingView {
    pub container_port: u16,
    pub host_port: Option<u16>,
    pub protocol: Seq<char>,
}

impl View for PortMapping {
    type V = PortMappingView;

    open spec fn view(&self) -> PortMappingView {
        PortMappingView {
            container_port: self.container_port,
            host_port: self.host_port,
            protocol: self.protocol@,
        }
    }
}

impl Clone for PortMapping {
    fn clone(&self) -> (r: Self)
        ensures
            r@ == self@,
    {
        PortMapping {
            container_port: self.container_port,
            host_port: self.host_port,
            protocol: self.protocol.clone(),
        }
    }
}

/// A running container, normalized for display: ports sorted by
/// container port then protocol, environment sorted lexically.
pub struct ContainerSummary {
    pub id: String,
    pub name: String,
    pub image: String,
    pub status: String,
    pub ports: Vec<PortMapping>,
    pub environment: Vec<String>,
}

pub struct ContainerSummaryView {
    pub id: Seq<char>,
    pub name: Seq<char>,
    pub image: Seq<char>,
    pub status: Seq<char>,
    pub ports: Seq<PortMappingView>,
    pub environment: Seq<Seq<char>>,
}

impl View for ContainerSummary {
    type V = ContainerSummaryView;

    open spec fn view(&self) -> ContainerSummaryView {
        ContainerSummaryView {
            id: self.id@,
            name: self.name@,
            image: self.image@,
            status: self.status@,
            ports: self.ports@.map_values(|p: PortMapping| p@),
            environment: self.environment@.map_values(|e: String| e@),
        }
    }
}

/// A locally cached image with its human tags.
pub struct LocalImageSummary {
    pub id: String,
    pub repo_tags: Vec<String>,
}

pub struct LocalImageSummaryView {
    pub id: Seq<char>,
    pub repo_tags: Seq<Seq<char>>,
}

impl View for LocalImageSummary {
    type V = LocalImageSummaryView;

    open spec fn view(&self) -> LocalImageSummaryView {
        LocalImageSummaryView {
            id: self.id@,
            repo_tags: self.repo_tags@.map_values(|t: String| t@),
        }
    }
}

/// A port an image declares, with the host port left open until a
/// container is created from it.
pub struct ContainerPortMapping {
    pub container_port: u16,
    pub host_port: Option<u16>,
    pub protocol: String,
}

pub struct ContainerPortMappingView {
    pub container_port: u16,
    pub host_port: Option<u16>,
    pub protocol: Seq<char>,
}

impl View for ContainerPortMapping {
    type V = ContainerPortMappingView;

    open spec fn view(&self) -> ContainerPortMappingView {
        ContainerPortMappingView {
            container_port: self.container_port,
            host_port: self.host_port,
            protocol: self.protocol@,
        }
    }
}

impl Clone for ContainerPortMapping {
    fn clone(&self) -> (r: Self)
        ensures
            r@ == self@,
    {
        ContainerPortMapping {
            container_port: self.container_port,
            host_port: self.host_port,
            protocol: self.protocol.clone(),
        }
    }
}

/// One `KEY=VALUE` environment entry, split at the first `=`.
pub struct EnvironmentVariable {
    pub key: String,
    pub value: String,
}

pub struct EnvironmentVariableView {
    pub key: Seq<char>,
    pub value: Seq<char>,
}

impl View for EnvironmentVariable {
    type V = EnvironmentVariableView;

    open spec fn view(&self) -> EnvironmentVariableView {
        EnvironmentVariableView { key: self.key@, value: self.value@ }
    }
}

impl Clone for EnvironmentVariable {
    fn clone(&self) -> (r: Self)
        ensures
            r@ == self@,
    {
        EnvironmentVariable { key: self.key.clone(), value: self.value.clone() }
    }
}

/// What an image declares: its tags, exposed ports and baked-in
/// environment defaults, each list sorted for display stability.
pub struct ImageInfo {
    pub id: String,
    pub repo_tags: Vec<String>,
    pub exposed_ports: Vec<ContainerPortMapping>,
    pub environment_variables: Vec<EnvironmentVariable>,
}

pub struct ImageInfoView {
    pub id: Seq<char>,
    pub repo_tags: Seq<Seq<char>>,
    pub exposed_ports: Seq<ContainerPortMappingView>,
    pub environment_variables: Seq<EnvironmentVariableView>,
}

impl View for ImageInfo {
    type V = ImageInfoView;

    open spec fn view(&self) -> ImageInfoView {
        ImageInfoView {
            id: self.id@,
            repo_tags: self.repo_tags@.map_values(|t: String| t@),
            exposed_ports: self.exposed_ports@.map_values(|p: ContainerPortMapping| p@),
            environment_variables: self.environment_variables@.map_values(
                |e: EnvironmentVariable| e@,
            ),
        }
    }
}

/// A request to create and start a container from an image.
pub struct CreateContainerRequest {
    pub image_name: String,
    pub container_name: Option<String>,
    pub environment_variables: Vec<EnvironmentVariable>,
    pub port_mappings: Vec<ContainerPortMapping>,
    pub restart_policy: Option<String>,
}

/// Fresh per-container resource usage, computed from two instantaneous
/// engine snapshots. Percentages are scaled by 1000 (milli-percent) so
/// that the arithmetic stays exact and integral.
pub struct ContainerMetrics {
    pub container_id: String,
    pub container_name: String,
    pub timestamp: i64,
    pub cpu_usage_percent_milli: u64,
    pub memory_usage_bytes: u64,
    pub memory_limit_bytes: u64,
    pub memory_usage_percent_milli: u64,
    pub network_rx_bytes: u64,
    pub network_tx_bytes: u64,
    pub block_read_bytes: u64,
    pub block_write_bytes: u64,
    pub pids: u64,
}

pub struct ContainerMetricsView {
    pub container_id: Seq<char>,
    pub container_name: Seq<char>,
    pub timestamp: i64,
    pub cpu_usage_percent_milli: u64,
    pub memory_usage_bytes: u64,
    pub memory_limit_bytes: u64,
    pub memory_usage_percent_milli: u64,
    pub network_rx_bytes: u64,
    pub network_tx_bytes: u64,
    pub block_read_bytes: u64,
    pub block_write_bytes: u64,
    pub pids: u64,
}

impl View for ContainerMetrics {
    type V = ContainerMetricsView;

    open spec fn view(&self) -> ContainerMetricsView {
        ContainerMetricsView {
            container_id: self.container_id@,
            container_name: self.container_name@,
            timestamp: self.timestamp,
            cpu_usage_percent_milli: self.cpu_usage_percent_milli,
            memory_usage_bytes: self.memory_usage_bytes,
            memory_limit_bytes: self.memory_limit_bytes,
            memory_usage_percent_milli: self.memory_usage_percent_milli,
            network_rx_bytes: self.network_rx_bytes,
            network_tx_bytes: self.network_tx_bytes,
            block_read_bytes: self.block_read_bytes,
            block_write_bytes: self.block_write_bytes,
            pids: self.pids,
        }
    }
}

/// Engine-wide counts and the engine version string.
pub struct SystemMetrics {
    pub timestamp: i64,
    pub total_containers: u32,
    pub running_containers: u32,
    pub total_images: u32,
    pub docker_version: String,
}

pub struct SystemMetricsView {
    pub timestamp: i64,
    pub total_containers: u32,
    pub running_containers: u32,
    pub total_images: u32,
    pub docker_version: Seq<char>,
}

impl View for SystemMetrics {
    type V = SystemMetricsView;

    open spec fn view(&self) -> SystemMetricsView {
        SystemMetricsView {
            timestamp: self.timestamp,
            total_containers: self.total_containers,
            running_containers: self.running_containers,
            total_images: self.total_images,
            docker_version: self.docker_version@,
        }
    }
}

/// The full metrics payload: system-wide counts plus one entry per
/// running container.
pub struct MetricsResponse {
    pub system: SystemMetrics,
    pub containers: Vec<ContainerMetrics>,
}

pub struct MetricsResponseView {
    pub system: SystemMetricsView,
    pub containers: Seq<ContainerMetricsView>,
}

impl View for MetricsResponse {
    type V = MetricsResponseView;

    open spec fn view(&self) -> MetricsResponseView {
        MetricsResponseView {
            system: self.system@,
            containers: self.containers@.map_values(|m: ContainerMetrics| m@),
        }
    }
}

} // verus!
