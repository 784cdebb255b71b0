//! Service definitions.

pub mod events;
pub mod limits;
pub mod orphans;
pub mod store;
pub mod utils;
pub mod validate;

use crate::container::scaling::manager::ScalingPolicy;
use crate::container::Container;
use crate::container::VolumeData;
use crate::level::Level;
use rustc_hash::FxHashMap;
use vstd::prelude::*;

verus! {

/// What a scaling task is told from outside.
#[derive(Clone, Copy, PartialEq, Eq, Structural, Debug)]
pub enum ScaleMessage {
    /// The service definition is about to change.
    ConfigUpdate,
    /// The change is done.
    Resume,
    /// New images are being rolled out.
    RollingUpdate,
    /// The rollout is done.
    RollingUpdateComplete,
}

/// A range of ports, both ends in it.
#[derive(Clone, Copy, PartialEq, Eq, Structural, Debug)]
pub struct PortRange {
    pub start: u16,
    pub end: u16,
}

/// How many pods a service may have.
#[derive(Clone, Copy, PartialEq, Eq, Structural, Debug)]
pub struct InstanceCount {
    pub min: u8,
    pub max: u8,
}

/// How the readings of a pod's containers become one reading of the pod.
#[derive(Clone, Copy, PartialEq, Eq, Structural, Debug)]
pub enum PodMetricsStrategy {
    Maximum,
    Average,
}

impl Default for PodMetricsStrategy {
    fn default() -> (r: Self)
        ensures
            r == PodMetricsStrategy::Maximum,
    {
        PodMetricsStrategy::Maximum
    }
}

/// The load above which a pod counts as overloaded, in percent.
#[derive(Clone, Copy, PartialEq, Eq, Structural, Debug)]
pub struct ResourceThresholds {
    pub cpu_percentage: Option<u8>,
    pub cpu_percentage_relative: Option<u8>,
    pub memory_percentage: Option<u8>,
    pub metrics_strategy: PodMetricsStrategy,
}

/// A resource limit as written in a definition.
#[derive(Debug)]
pub enum LimitValue {
    /// A number.
    Number(Level),
    /// A text, such as `512Mi`.
    Text(String),
    /// Anything else.
    Other,
}

/// Latency-driven scaling. Times are in nanoseconds.
#[derive(Clone, Copy, PartialEq, Eq, Structural, Debug)]
pub struct CoDelConfig {
    /// The latency that is still acceptable.
    pub target: u128,
    /// How far back a sample counts as recent.
    pub interval: u128,
    /// For how many intervals latency must stay above target before scaling.
    pub consecutive_intervals: u32,
    /// The most pods to add at once.
    pub max_scale_step: u32,
    /// The time between two scaling actions.
    pub scale_cooldown: u128,
    /// What an overloaded service answers.
    pub overload_status_code: Option<u16>,
}

/// How a rollout proceeds. Times are in nanoseconds.
#[derive(Clone, Copy, PartialEq, Eq, Structural, Debug)]
pub struct RollingUpdateConfig {
    /// How many pods may be down at a time.
    pub max_unavailable: u8,
    /// How many pods may exist beyond the usual number.
    pub max_surge: u8,
    /// How long a new pod may take to become ready.
    pub timeout: u128,
}

/// The readings of a pod.
#[derive(Clone, Copy, PartialEq, Eq, Structural, Debug)]
pub struct PodStats {
    pub cpu_percentage: Level,
    pub cpu_percentage_relative: Level,
    pub memory_usage: u64,
    pub memory_limit: u64,
}

/// The containers that make up one pod.
#[derive(Debug)]
pub struct ServiceSpec {
    pub containers: Vec<Container>,
}

/// A service.
#[derive(Debug)]
pub struct ServiceConfig {
    pub name: String,
    pub network: Option<String>,
    pub spec: ServiceSpec,
    pub volumes: Option<FxHashMap<String, VolumeData>>,
    pub memory_limit: Option<LimitValue>,
    pub cpu_limit: Option<LimitValue>,
    pub resource_thresholds: Option<ResourceThresholds>,
    pub codel: Option<CoDelConfig>,
    pub scaling_policy: Option<ScalingPolicy>,
    pub instance_count: InstanceCount,
    pub adopt_orphans: bool,
    pub interval_seconds: Option<u64>,
    /// Nanoseconds between two looks for new images.
    pub image_check_interval: Option<u128>,
    pub rolling_update_config: Option<RollingUpdateConfig>,
}

} // verus!
