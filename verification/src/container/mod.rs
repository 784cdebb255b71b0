//! Containers, pods, and the state kept about them.

pub mod health;
pub mod lifecycle;
pub mod naming;
pub mod rolling_update;
pub mod rollout;
pub mod runtimes;
pub mod scaling;
pub mod stats;
pub mod volumes;

use crate::config::LimitValue;
use crate::config::ResourceThresholds;
use crate::container::health::config::HealthCheckConfig;
use crate::container::volumes::NamedVolume;
use crate::level::Level;
use rustc_hash::FxHashMap;
use std::collections::HashMap;
use vstd::prelude::*;

verus! {

/// The longest service name that a container name may carry, in bytes.
pub const MAX_SERVICE_NAME_LENGTH: usize = 60;

/// The longest container name that a container name may carry, in bytes.
pub const MAX_CONTAINER_NAME_LENGTH: usize = 60;

/// Where a volume appears inside a container.
#[derive(Debug)]
pub struct VolumeMount {
    pub name: String,
    pub mount_path: String,
    pub sub_path: Option<String>,
    pub read_only: Option<bool>,
}

/// Where the contents of a volume come from.
#[derive(Debug)]
pub struct VolumeData {
    pub files: Option<FxHashMap<String, String>>,
    pub named_volume: Option<NamedVolume>,
    pub host_path: Option<String>,
    pub permissions: Option<String>,
}

/// Traffic limits, such as `10Mbps`.
#[derive(Debug)]
pub struct NetworkLimit {
    pub ingress_rate: Option<String>,
    pub egress_rate: Option<String>,
    pub ingress_burst: Option<String>,
    pub egress_burst: Option<String>,
}

/// A transport protocol.
#[derive(Clone, Copy, PartialEq, Eq, Structural, Debug)]
pub enum Protocol {
    TCP,
    UDP,
}

/// A port that a container listens on.
#[derive(Clone, Copy, PartialEq, Eq, Structural, Debug)]
pub struct ContainerPort {
    pub port: u16,
    pub target_port: Option<u16>,
    pub node_port: Option<u16>,
    pub protocol: Option<Protocol>,
}

/// One container of a pod, as defined.
#[derive(Debug)]
pub struct Container {
    pub name: String,
    pub image: String,
    pub command: Option<Vec<String>>,
    pub ports: Option<Vec<ContainerPort>>,
    pub volume_mounts: Option<Vec<VolumeMount>>,
    /// Volumes that the container brings along itself.
    pub volumes: Option<FxHashMap<String, VolumeData>>,
    pub memory_limit: Option<LimitValue>,
    pub cpu_limit: Option<LimitValue>,
    pub network_limit: Option<NetworkLimit>,
    pub resource_thresholds: Option<ResourceThresholds>,
    pub health_check: Option<HealthCheckConfig>,
}

/// Why a container got no name.
#[derive(Clone, Copy, PartialEq, Eq, Structural, Debug)]
pub enum ContainerError {
    ServiceNameTooLong(usize),
    ContainerNameTooLong(usize),
}

/// A port of a running container.
#[derive(Clone, Copy, PartialEq, Eq, Structural, Debug)]
pub struct ContainerPortMetadata {
    /// The port that the container exposes.
    pub port: u16,
    pub target_port: Option<u16>,
    /// The port that the proxy listens on for it.
    pub node_port: Option<u16>,
}

/// A running container.
#[derive(Debug)]
pub struct ContainerMetadata {
    pub name: String,
    pub network: String,
    pub ip_address: String,
    pub ports: Vec<ContainerPortMetadata>,
    pub status: String,
}

/// A running pod.
#[derive(Debug)]
pub struct InstanceMetadata {
    pub uuid: u128,
    /// Nanoseconds since the epoch.
    pub created_at: u128,
    pub network: String,
    pub containers: Vec<ContainerMetadata>,
    /// The image that each container was started from, by container name.
    pub image_hash: FxHashMap<String, String>,
}

/// The pods of every service.
pub type InstanceStore = FxHashMap<String, HashMap<u128, InstanceMetadata>>;

/// A container as the runtime lists it.
#[derive(Debug)]
pub struct ContainerInfo {
    pub id: String,
    pub name: String,
    pub state: String,
    pub port: u16,
}

/// A CPU reading, kept to compare the next one with.
#[derive(Clone, Copy, PartialEq, Eq, Structural, Debug)]
pub struct StatsEntry {
    /// Nanoseconds since the epoch.
    pub timestamp: u128,
    pub cpu_total_usage: u64,
    pub system_cpu_usage: u64,
}

/// The readings of one container.
#[derive(Debug)]
pub struct ContainerStats {
    pub id: String,
    pub ip_address: String,
    pub cpu_percentage: Level,
    pub cpu_percentage_relative: Level,
    pub memory_usage: u64,
    pub memory_limit: u64,
    pub port_mappings: HashMap<u16, u16>,
    pub network_rx_bytes: u64,
    pub network_tx_bytes: u64,
    /// Bytes per second.
    pub network_rx_rate: Level,
    /// Bytes per second.
    pub network_tx_rate: Level,
    /// Nanoseconds since the epoch.
    pub timestamp: u128,
}

/// What a `ContainerMetadata` says.
pub struct ContainerFacts {
    pub name: Seq<char>,
    pub network: Seq<char>,
    pub ip_address: Seq<char>,
    pub ports: Seq<ContainerPortMetadata>,
    pub status: Seq<char>,
}

impl View for ContainerMetadata {
    type V = ContainerFacts;

    open spec fn view(&self) -> ContainerFacts {
        ContainerFacts {
            name: self.name@,
            network: self.network@,
            ip_address: self.ip_address@,
            ports: self.ports@,
            status: self.status@,
        }
    }
}

/// What an `InstanceMetadata` says.
pub struct InstanceFacts {
    pub uuid: u128,
    pub created_at: u128,
    pub network: Seq<char>,
    pub containers: Seq<ContainerFacts>,
    pub image_hash: Map<Seq<char>, Seq<char>>,
}

impl View for InstanceMetadata {
    type V = InstanceFacts;

    open spec fn view(&self) -> InstanceFacts {
        InstanceFacts {
            uuid: self.uuid,
            created_at: self.created_at,
            network: self.network@,
            containers: self.containers@.map_values(|c: ContainerMetadata| c@),
            image_hash: crate::stores::entries(self.image_hash).map_values(|h: String| h@),
        }
    }
}

} // verus!
