//! One place where latency and resource readings become scaling decisions.
//!
//! Times are in nanoseconds on a clock of the caller's choice.

use crate::config::InstanceCount;
use crate::config::PodStats;
use crate::config::ResourceThresholds;
use crate::config::ServiceConfig;
use crate::container::scaling::codel;
use crate::container::scaling::codel::CoDelMetrics;
use crate::container::scaling::codel::CoDelState;
use crate::level;
use crate::level::Level;
use crate::rounding;
use crate::stores;
use crate::text;
use std::collections::HashMap;
use vstd::prelude::*;
use vstd::string::*;

verus! {

/// The wait between two scaling actions where a policy gives none.
pub const DEFAULT_COOLDOWN: u128 = 60_000_000_000;

/// When scaling may happen.
#[derive(Clone, Copy, PartialEq, Eq, Structural, Debug)]
pub struct ScalingPolicy {
    /// How long to wait between two scaling actions.
    pub cooldown_duration: Option<u128>,
    /// CPU/memory usage percentage below which scale-down is considered.
    pub scale_down_threshold_percentage: Option<Level>,
}

impl Default for ScalingPolicy {
    fn default() -> (r: Self)
        ensures
            r.cooldown_duration is None,
            r.scale_down_threshold_percentage is None,
    {
        ScalingPolicy { cooldown_duration: None, scale_down_threshold_percentage: None }
    }
}

/// A minute.
pub fn default_cooldown_duration() -> (r: u128)
    ensures
        r == DEFAULT_COOLDOWN,
{
    DEFAULT_COOLDOWN
}

/// Half of what a pod may use.
pub fn default_scale_down_threshold() -> (r: Level)
    ensures
        r == level::whole_level(50),
{
    Level::whole(50)
}

impl ScalingPolicy {
    /// The wait between two scaling actions.
    pub open spec fn cooldown(self) -> u128 {
        match self.cooldown_duration {
            Some(d) => d,
            None => DEFAULT_COOLDOWN,
        }
    }

    /// CPU/memory usage percentage below which scale-down is considered.
    pub open spec fn scale_down_threshold(self) -> Level {
        match self.scale_down_threshold_percentage {
            Some(l) => l,
            None => level::whole_level(50),
        }
    }

    /// The wait between two scaling actions.
    pub fn get_cooldown_duration(&self) -> (r: u128)
        ensures
            r == self.cooldown(),
    {
        match self.cooldown_duration {
            Some(d) => d,
            None => default_cooldown_duration(),
        }
    }

    /// CPU/memory usage percentage below which scale-down is considered.
    pub fn get_scale_down_threshold(&self) -> (r: Level)
        ensures
            r == self.scale_down_threshold(),
    {
        match self.scale_down_threshold_percentage {
            Some(l) => l,
            None => default_scale_down_threshold(),
        }
    }
}

/// What to do about the size of a service.
#[derive(Clone, Copy, PartialEq, Eq, Structural, Debug)]
pub enum ScalingDecision {
    ScaleUp(u32),
    ScaleDown(u32),
    NoChange,
}

/// What the manager last did.
#[derive(Clone, Copy, PartialEq, Eq, Structural, Debug)]
pub enum ScalingState {
    Normal,
    CoDelScalingUp { since: u128, last_scale: u128 },
    ResourceScalingDown { since: u128 },
    Cooldown { until: u128 },
}

/// The readings of the clock in the course of one evaluation.
#[derive(Clone, Copy, PartialEq, Eq, Structural, Debug)]
pub struct EvaluationTimes {
    /// When the evaluation began.
    pub start: u128,
    /// When the flow of traffic was looked at.
    pub traffic: u128,
    /// When latency was looked at for idleness.
    pub idle: u128,
    /// When latency was looked at for overload.
    pub overload: u128,
    /// When idleness was looked at again, before a pod is taken away.
    pub recheck: u128,
}

/// The pod has been measured.
pub open spec fn ready(p: PodStats) -> bool {
    p.cpu_percentage.above(level::whole_level(0)) && p.cpu_percentage_relative.above(level::whole_level(0))
}

/// A reading above its threshold, and not below the noise.
pub open spec fn over(reading: Level, threshold: Option<u8>) -> bool {
    match threshold {
        Some(t) => reading.not_below(level::whole_level(5)) && reading.above(level::whole_level(t)),
        None => false,
    }
}

/// Memory use in percent of the limit; zero where there is no limit.
pub open spec fn memory_percentage(p: PodStats) -> Level {
    rounding::percentage(p.memory_usage, p.memory_limit)
}

/// Some reading of the pod is above its threshold.
pub open spec fn overloaded(t: ResourceThresholds, p: PodStats) -> bool {
    ||| over(p.cpu_percentage, t.cpu_percentage)
    ||| over(p.cpu_percentage_relative, t.cpu_percentage_relative)
    ||| over(memory_percentage(p), t.memory_percentage)
}

/// Every usage reading of the pod is below the level.
pub open spec fn usage_below(p: PodStats, level: Level) -> bool {
    &&& level.above(p.cpu_percentage)
    &&& level.above(p.cpu_percentage_relative)
    &&& level.above(memory_percentage(p))
}

/// The pods that have been measured.
pub open spec fn measured_pods(pods: Map<u128, PodStats>) -> Set<u128> {
    pods.dom().filter(|k: u128| ready(pods[k]))
}

/// The measured pods that are overloaded.
pub open spec fn overloaded_pods(t: ResourceThresholds, pods: Map<u128, PodStats>) -> Set<u128> {
    pods.dom().filter(|k: u128| ready(pods[k]) && overloaded(t, pods[k]))
}

/// There are measured pods, and at least three quarters of them are overloaded.
pub open spec fn mostly_overloaded(t: ResourceThresholds, pods: Map<u128, PodStats>) -> bool {
    measured_pods(pods).len() > 0 && 4 * overloaded_pods(t, pods).len() >= 3 * measured_pods(pods).len()
}

/// Every usage reading of every measured pod is below the level.
pub open spec fn all_below(pods: Map<u128, PodStats>, level: Level) -> bool {
    forall|k: u128| #[trigger] pods.contains_key(k) && ready(pods[k]) ==> usage_below(pods[k], level)
}

/// What a `UnifiedScalingManager` says.
pub struct ManagerState {
    pub service_name: Seq<char>,
    pub state: ScalingState,
    pub resource_thresholds: Option<ResourceThresholds>,
    pub instance_count: InstanceCount,
    pub policy: ScalingPolicy,
    pub last_scale_time: u128,
}

/// The outcome of an evaluation: the decision, and the states it leaves.
pub struct Outcome {
    pub decision: ScalingDecision,
    pub manager: ManagerState,
    pub codel: Option<CoDelState>,
}

impl ManagerState {
    /// A scaling action was taken too short a time ago for another.
    pub open spec fn cooling_down(self, now: u128) -> bool {
        codel::elapsed_time(now, self.last_scale_time) < self.policy.cooldown()
    }

    /// What the resource readings alone call for: another pod where at least
    /// three quarters of the measured pods are overloaded, one pod less where
    /// all of them are used below the scale-down threshold.
    pub open spec fn resource_verdict(self, pods: Map<u128, PodStats>) -> Option<ScalingDecision> {
        if self.resource_thresholds is None || measured_pods(pods).len() == 0 {
            None
        } else if mostly_overloaded(self.resource_thresholds->0, pods) {
            Some(ScalingDecision::ScaleUp(1))
        } else if all_below(pods, self.policy.scale_down_threshold()) {
            Some(ScalingDecision::ScaleDown(1))
        } else {
            Some(ScalingDecision::NoChange)
        }
    }

    /// There is room for another pod.
    pub open spec fn can_grow(self, current: nat) -> bool {
        current < self.instance_count.max
    }

    /// A pod can go without falling below the minimum.
    pub open spec fn can_shrink(self, current: nat) -> bool {
        current > self.instance_count.min
    }

    /// The manager after a scaling action.
    pub open spec fn acted(self, now: u128) -> ManagerState {
        ManagerState { last_scale_time: now, ..self }
    }

    /// The outcome where latency calls for nothing.
    pub open spec fn resource_outcome(
        self,
        times: EvaluationTimes,
        current: nat,
        pods: Map<u128, PodStats>,
        codel: Option<CoDelState>,
    ) -> Outcome {
        let stay = Outcome { decision: ScalingDecision::NoChange, manager: self, codel };
        match self.resource_verdict(pods) {
            Some(ScalingDecision::ScaleUp(n)) => if self.can_grow(current) {
                Outcome { decision: ScalingDecision::ScaleUp(n), manager: self.acted(times.start), codel }
            } else {
                stay
            },
            Some(ScalingDecision::ScaleDown(n)) => if self.can_shrink(current) && (codel matches Some(c) ==> c.idle(
                times.recheck,
            )) {
                Outcome { decision: ScalingDecision::ScaleDown(n), manager: self.acted(times.start), codel }
            } else {
                stay
            },
            _ => stay,
        }
    }

    /// The outcome of an evaluation: nothing during the cooldown; then what
    /// latency calls for; then what resources call for.
    pub open spec fn outcome(
        self,
        times: EvaluationTimes,
        current: nat,
        pods: Map<u128, PodStats>,
        codel: Option<CoDelState>,
    ) -> Outcome {
        if self.cooling_down(times.start) {
            Outcome { decision: ScalingDecision::NoChange, manager: self, codel }
        } else {
            match codel {
                None => self.resource_outcome(times, current, pods, None),
                Some(c0) => {
                    let c = c0.traffic_checked(times.traffic);
                    if c.idle(times.idle) && self.can_shrink(current) {
                        Outcome {
                            decision: ScalingDecision::ScaleDown(1),
                            manager: self.acted(times.start),
                            codel: Some(c),
                        }
                    } else if c.scale_due(times.overload) && self.can_grow(current) {
                        Outcome {
                            decision: ScalingDecision::ScaleUp(1),
                            manager: ManagerState {
                                state: ScalingState::CoDelScalingUp { since: times.start, last_scale: times.start },
                                ..self.acted(times.start)
                            },
                            codel: Some(c.judged(times.overload)),
                        }
                    } else {
                        self.resource_outcome(times, current, pods, Some(c.judged(times.overload)))
                    }
                },
            }
        }
    }

    /// The text for the state.
    pub open spec fn state_text(self, now: u128) -> Seq<char> {
        match self.state {
            ScalingState::Normal => "normal"@,
            ScalingState::CoDelScalingUp { since, last_scale } => {
                "codel_scaling_up_"@ + text::decimal((codel::elapsed_time(last_scale, since) / 1_000_000_000) as nat)
            },
            ScalingState::ResourceScalingDown { since } => {
                "resource_scaling_down_"@ + text::decimal((codel::elapsed_time(since, now) / 1_000_000_000) as nat)
            },
            ScalingState::Cooldown { until } => {
                "cooldown_"@ + text::decimal((codel::elapsed_time(until, now) / 1_000_000_000) as nat)
            },
        }
    }
}

/// Decides when a service grows and shrinks.
#[derive(Debug)]
pub struct UnifiedScalingManager {
    service_name: String,
    state: ScalingState,
    resource_thresholds: Option<ResourceThresholds>,
    instance_count: InstanceCount,
    policy: ScalingPolicy,
    last_scale_time: u128,
}

impl View for UnifiedScalingManager {
    type V = ManagerState;

    closed spec fn view(&self) -> ManagerState {
        ManagerState {
            service_name: self.service_name@,
            state: self.state,
            resource_thresholds: self.resource_thresholds,
            instance_count: self.instance_count,
            policy: self.policy,
            last_scale_time: self.last_scale_time,
        }
    }
}

/// Whether a reading is above its threshold.
fn is_over(reading: &Level, threshold: Option<u8>) -> (r: bool)
    ensures
        r == over(*reading, threshold),
{
    match threshold {
        Some(t) => reading.reaches(&Level::whole(5)) && reading.exceeds(&Level::whole(t)),
        None => false,
    }
}

/// Whether every usage reading of a pod is below the level.
fn is_usage_below(stats: &PodStats, level: &Level) -> (r: bool)
    ensures
        r == usage_below(*stats, *level),
{
    let memory: Level = rounding::percentage_of(stats.memory_usage, stats.memory_limit);
    level.exceeds(&memory) && level.exceeds(&stats.cpu_percentage) && level.exceeds(&stats.cpu_percentage_relative)
}

/// Whether every usage reading of every measured pod is below the level.
pub fn are_all_below(pod_stats: &HashMap<u128, PodStats>, level: &Level) -> (r: bool)
    ensures
        r == all_below(pod_stats@, *level),
{
    let keys: Vec<u128> = stores::id_keys(pod_stats);
    let mut i: usize = 0;
    while i < keys.len()
        invariant
            i <= keys@.len(),
            forall|j: int| 0 <= j < keys@.len() ==> pod_stats@.contains_key(#[trigger] keys@[j]),
            forall|j: int|
                0 <= j < i && ready(pod_stats@[#[trigger] keys@[j]]) ==> usage_below(pod_stats@[keys@[j]], *level),
        decreases keys@.len() - i,
    {
        assert(pod_stats@.contains_key(keys@[i as int]));
        if let Some(stats) = pod_stats.get(&keys[i]) {
            let zero: Level = Level::whole(0);
            if stats.cpu_percentage.exceeds(&zero) && stats.cpu_percentage_relative.exceeds(&zero) && !is_usage_below(
                stats,
                level,
            ) {
                return false;
            }
        }
        i = i + 1;
    }
    assert forall|k: u128| #[trigger] pod_stats@.contains_key(k) && ready(pod_stats@[k]) implies usage_below(
        pod_stats@[k],
        *level,
    ) by {
        assert(keys@.to_set().contains(k));
        let j = choose|j: int| 0 <= j < keys@.len() && keys@[j] == k;
        assert(ready(pod_stats@[keys@[j]]));
    }
    true
}

/// Whether at least three quarters of the measured pods are overloaded.
pub fn three_quarters(exceeding: usize, evaluated: usize) -> (r: bool)
    ensures
        r == (4 * exceeding >= 3 * evaluated),
{
    exceeding as u128 * 4 >= evaluated as u128 * 3
}

/// How many pods are overloaded, and how many were measured.
pub fn count_overloaded(thresholds: &ResourceThresholds, pod_stats: &HashMap<u128, PodStats>) -> (r: (usize, usize))
    ensures
        r.0 == overloaded_pods(*thresholds, pod_stats@).len(),
        r.1 == measured_pods(pod_stats@).len(),
{
    let keys: Vec<u128> = stores::id_keys(pod_stats);
    let mut exceeding: usize = 0;
    let mut evaluated: usize = 0;
    let mut i: usize = 0;
    let ghost pods = pod_stats@;
    let ghost is_ready = |k: u128| ready(pods[k]);
    let ghost is_overloaded = |k: u128| ready(pods[k]) && overloaded(*thresholds, pods[k]);
    proof {
        reveal(Seq::filter);
        assert(keys@.take(0) =~= Seq::empty());
    }
    while i < keys.len()
        invariant
            i <= keys@.len(),
            pods == pod_stats@,
            forall|j: int| 0 <= j < keys@.len() ==> pod_stats@.contains_key(#[trigger] keys@[j]),
            is_ready == (|k: u128| ready(pods[k])),
            is_overloaded == (|k: u128| ready(pods[k]) && overloaded(*thresholds, pods[k])),
            exceeding == keys@.take(i as int).filter(is_overloaded).len(),
            evaluated == keys@.take(i as int).filter(is_ready).len(),
            exceeding <= i,
            evaluated <= i,
        decreases keys@.len() - i,
    {
        let key: u128 = keys[i];
        proof {
            reveal(Seq::filter);
            assert(pod_stats@.contains_key(keys@[i as int]));
            assert(keys@.take(i + 1).drop_last() =~= keys@.take(i as int));
            assert(keys@.take(i + 1).last() == key);
        }
        if let Some(stats) = pod_stats.get(&key) {
            let zero: Level = Level::whole(0);
            if stats.cpu_percentage.exceeds(&zero) && stats.cpu_percentage_relative.exceeds(&zero) {
                evaluated = evaluated + 1;
                if is_over(&stats.cpu_percentage, thresholds.cpu_percentage) || is_over(
                    &stats.cpu_percentage_relative,
                    thresholds.cpu_percentage_relative,
                ) || is_over(
                    &rounding::percentage_of(stats.memory_usage, stats.memory_limit),
                    thresholds.memory_percentage,
                ) {
                    exceeding = exceeding + 1;
                }
            }
        }
        i = i + 1;
    }
    proof {
        assert(keys@.take(i as int) =~= keys@);
        stores::lemma_count(keys@, is_ready);
        stores::lemma_count(keys@, is_overloaded);
        assert(measured_pods(pods) =~= keys@.to_set().filter(is_ready));
        assert(overloaded_pods(*thresholds, pods) =~= keys@.to_set().filter(is_overloaded));
    }
    (exceeding, evaluated)
}

impl UnifiedScalingManager {
    /// A manager for the service; the first cooldown starts now.
    pub fn new(service_name: String, config: &ServiceConfig, policy: Option<ScalingPolicy>, now: u128) -> (r: Self)
        ensures
            r@.service_name == service_name@,
            r@.state == ScalingState::Normal,
            r@.resource_thresholds == config.resource_thresholds,
            r@.instance_count == config.instance_count,
            policy matches Some(p) ==> r@.policy == p,
            policy is None ==> r@.policy.cooldown() == DEFAULT_COOLDOWN && r@.policy.scale_down_threshold()
                == level::whole_level(50),
            r@.last_scale_time == now,
    {
        let policy: ScalingPolicy = match policy {
            Some(p) => p,
            None => ScalingPolicy::default(),
        };
        UnifiedScalingManager {
            service_name,
            state: ScalingState::Normal,
            resource_thresholds: config.resource_thresholds,
            instance_count: config.instance_count,
            policy,
            last_scale_time: now,
        }
    }

    /// How many pods are overloaded, and how many were measured; nothing where
    /// there are no thresholds or no measured pod.
    pub fn count_pods(&self, pod_stats: &HashMap<u128, PodStats>) -> (r: Option<(usize, usize)>)
        ensures
            r is None <==> self@.resource_thresholds is None || measured_pods(pod_stats@).len() == 0,
            r matches Some(c) ==> c.0 == overloaded_pods(self@.resource_thresholds->0, pod_stats@).len() && c.1
                == measured_pods(pod_stats@).len(),
    {
        match &self.resource_thresholds {
            Some(thresholds) => {
                let counts: (usize, usize) = count_overloaded(thresholds, pod_stats);
                if counts.1 == 0 {
                    None
                } else {
                    Some(counts)
                }
            },
            None => None,
        }
    }

    /// What the resource readings alone call for.
    pub fn evaluate_resources(&self, pod_stats: &HashMap<u128, PodStats>) -> (r: Option<ScalingDecision>)
        ensures
            r == self@.resource_verdict(pod_stats@),
    {
        let (exceeding, evaluated): (usize, usize) = match self.count_pods(pod_stats) {
            Some(counts) => counts,
            None => {
                return None;
            },
        };
        if three_quarters(exceeding, evaluated) {
            Some(ScalingDecision::ScaleUp(1))
        } else if are_all_below(pod_stats, &self.policy.get_scale_down_threshold()) {
            Some(ScalingDecision::ScaleDown(1))
        } else {
            Some(ScalingDecision::NoChange)
        }
    }

    /// Decides whether the service grows or shrinks.
    pub fn evaluate(
        &mut self,
        times: &EvaluationTimes,
        current_instances: usize,
        pod_stats: &HashMap<u128, PodStats>,
        codel_metrics: &mut Option<CoDelMetrics>,
    ) -> (r: ScalingDecision)
        ensures
            ({
                let codel = match *old(codel_metrics) {
                    Some(c) => Some(c@),
                    None => None,
                };
                let out = old(self)@.outcome(*times, current_instances as nat, pod_stats@, codel);
                &&& r == out.decision
                &&& final(self)@ == out.manager
                &&& out.codel == (match *final(codel_metrics) {
                    Some(c) => Some(c@),
                    None => None,
                })
            }),
    {
        if codel::elapsed(times.start, self.last_scale_time) < self.policy.get_cooldown_duration() {
            return ScalingDecision::NoChange;
        }
        let min: usize = self.instance_count.min as usize;
        let max: usize = self.instance_count.max as usize;
        if let Some(metrics) = codel_metrics.as_mut() {
            metrics.check_traffic(times.traffic);
            if metrics.can_scale_down(times.idle) {
                if current_instances > min {
                    self.last_scale_time = times.start;
                    return ScalingDecision::ScaleDown(1);
                }
            }
            if let Some(action) = metrics.check_state(times.overload) {
                if current_instances < max {
                    self.state = ScalingState::CoDelScalingUp { since: times.start, last_scale: times.start };
                    self.last_scale_time = times.start;
                    return ScalingDecision::ScaleUp(action.instances);
                }
            }
        }
        match self.evaluate_resources(pod_stats) {
            Some(ScalingDecision::ScaleDown(n)) => {
                if current_instances > min {
                    if let Some(metrics) = codel_metrics.as_ref() {
                        if !metrics.can_scale_down(times.recheck) {
                            return ScalingDecision::NoChange;
                        }
                    }
                    self.last_scale_time = times.start;
                    return ScalingDecision::ScaleDown(n);
                }
            },
            Some(ScalingDecision::ScaleUp(n)) => {
                if current_instances < max {
                    self.last_scale_time = times.start;
                    return ScalingDecision::ScaleUp(n);
                }
            },
            _ => {},
        }
        ScalingDecision::NoChange
    }

    /// Starts a cooldown.
    pub fn enter_cooldown(&mut self, now: u128)
        ensures
            final(self)@ == old(self)@.acted(now),
    {
        self.last_scale_time = now;
    }

    /// A text for what the manager last did.
    pub fn get_state(&self, now: u128) -> (r: String)
        ensures
            r@ == self@.state_text(now),
    {
        match self.state {
            ScalingState::Normal => "normal".to_owned(),
            ScalingState::CoDelScalingUp { since, last_scale } => {
                let seconds: String = text::decimal_of(codel::elapsed(last_scale, since) / 1_000_000_000);
                "codel_scaling_up_".to_owned().concat(seconds.as_str())
            },
            ScalingState::ResourceScalingDown { since } => {
                let seconds: String = text::decimal_of(codel::elapsed(since, now) / 1_000_000_000);
                "resource_scaling_down_".to_owned().concat(seconds.as_str())
            },
            ScalingState::Cooldown { until } => {
                let seconds: String = text::decimal_of(codel::elapsed(until, now) / 1_000_000_000);
                "cooldown_".to_owned().concat(seconds.as_str())
            },
        }
    }
}

/// A decision never takes the service past its bounds: growth happens below the
/// maximum, shrinking above the minimum, by one pod at a time.
pub proof fn decisions_respect_the_bounds(
    m: ManagerState,
    times: EvaluationTimes,
    current: nat,
    pods: Map<u128, PodStats>,
    c: Option<CoDelState>,
)
    ensures
        match m.outcome(times, current, pods, c).decision {
            ScalingDecision::ScaleUp(n) => n == 1 && current + n <= m.instance_count.max,
            ScalingDecision::ScaleDown(n) => n == 1 && current - n >= m.instance_count.min,
            ScalingDecision::NoChange => true,
        },
{
}

/// A decision other than to stay starts the cooldown, and no decision falls
/// within it.
pub proof fn decisions_are_spaced_by_the_cooldown(
    m: ManagerState,
    times: EvaluationTimes,
    current: nat,
    pods: Map<u128, PodStats>,
    c: Option<CoDelState>,
    later: EvaluationTimes,
    later_current: nat,
    later_pods: Map<u128, PodStats>,
    later_c: Option<CoDelState>,
)
    requires
        m.outcome(times, current, pods, c).decision != ScalingDecision::NoChange,
        codel::elapsed_time(later.start, times.start) < m.policy.cooldown(),
    ensures
        ({
            let next = m.outcome(times, current, pods, c).manager;
            let out = next.outcome(later, later_current, later_pods, later_c);
            &&& next.last_scale_time == times.start
            &&& out.decision == ScalingDecision::NoChange
            &&& out.manager == next
            &&& out.codel == later_c
        }),
{
}

/// A service whose latency shows load loses no pod, whatever its resource
/// readings.
pub proof fn latency_guards_against_shrinking(
    m: ManagerState,
    times: EvaluationTimes,
    current: nat,
    pods: Map<u128, PodStats>,
    c: CoDelState,
)
    requires
        !c.idle(times.idle),
        !c.idle(times.recheck),
    ensures
        !(m.outcome(times, current, pods, Some(c)).decision is ScaleDown),
{
}

/// Resources take a pod away only where every measured pod is used below the
/// scale-down threshold and less than three quarters of them are overloaded.
pub proof fn only_idle_pods_are_taken_for_their_resources(
    m: ManagerState,
    times: EvaluationTimes,
    current: nat,
    pods: Map<u128, PodStats>,
    k: u128,
)
    requires
        m.outcome(times, current, pods, None).decision is ScaleDown,
        pods.contains_key(k),
        ready(pods[k]),
    ensures
        usage_below(pods[k], m.policy.scale_down_threshold()),
        m.resource_thresholds matches Some(t) && !mostly_overloaded(t, pods),
{
}

/// Readings below five percent never make a pod overloaded, however low the
/// thresholds.
pub proof fn noise_is_no_overload(t: ResourceThresholds, p: PodStats)
    requires
        !p.cpu_percentage.not_below(level::whole_level(5)),
        !p.cpu_percentage_relative.not_below(level::whole_level(5)),
        !memory_percentage(p).not_below(level::whole_level(5)),
    ensures
        !overloaded(t, p),
{
}

/// The pods whose CPU readings are both above zero.
pub open spec fn pods_with_readings(pods: Map<u128, PodStats>) -> Set<u128> {
    pods.dom().filter(
        |k: u128|
            pods[k].cpu_percentage.above(level::whole_level(0)) && pods[k].cpu_percentage_relative.above(
                level::whole_level(0),
            ),
    )
}

/// The reading is above a threshold that is given, and at least five percent.
pub open spec fn passes(reading: Level, threshold: Option<u8>) -> bool {
    threshold matches Some(t) && reading.above(level::whole_level(t)) && !level::whole_level(5).above(reading)
}

/// The pods with readings of which one passes its threshold.
pub open spec fn pods_over_a_threshold(t: ResourceThresholds, pods: Map<u128, PodStats>) -> Set<u128> {
    pods_with_readings(pods).filter(
        |k: u128|
            passes(pods[k].cpu_percentage, t.cpu_percentage) || passes(
                pods[k].cpu_percentage_relative,
                t.cpu_percentage_relative,
            ) || passes(rounding::percentage(pods[k].memory_usage, pods[k].memory_limit), t.memory_percentage),
    )
}

/// There are pods with readings, and at most a quarter of them pass no threshold.
pub open spec fn short_of_pods(t: ResourceThresholds, pods: Map<u128, PodStats>) -> bool {
    let measured = pods_with_readings(pods);
    &&& measured.len() > 0
    &&& 4 * measured.difference(pods_over_a_threshold(t, pods)).len() <= measured.len()
}

/// There are pods with readings, and each reading of each of them is below the
/// level.
pub open spec fn all_pods_spare(pods: Map<u128, PodStats>, level: Level) -> bool {
    &&& pods_with_readings(pods).len() > 0
    &&& forall|k: u128| #[trigger]
        pods_with_readings(pods).contains(k) ==> level.above(pods[k].cpu_percentage) && level.above(
            pods[k].cpu_percentage_relative,
        ) && level.above(rounding::percentage(pods[k].memory_usage, pods[k].memory_limit))
}

/// Counting the overloaded pods and counting the others come to the same.
proof fn lemma_short_of_pods(t: ResourceThresholds, pods: Map<u128, PodStats>)
    requires
        pods.dom().finite(),
    ensures
        measured_pods(pods) == pods_with_readings(pods),
        mostly_overloaded(t, pods) == short_of_pods(t, pods),
{
    let (m, o) = (measured_pods(pods), overloaded_pods(t, pods));
    assert(m =~= pods_with_readings(pods));
    assert(o =~= pods_over_a_threshold(t, pods)) by {
        assert forall|k: u128| o.contains(k) == pods_over_a_threshold(t, pods).contains(k) by {
            if m.contains(k) {
                lemma_at_least(pods[k].cpu_percentage);
                lemma_at_least(pods[k].cpu_percentage_relative);
                lemma_at_least(memory_percentage(pods[k]));
            }
        }
    }
    let rest = m.difference(o);
    assert(m =~= o.union(rest));
    assert(o.disjoint(rest));
    vstd::set_lib::lemma_set_disjoint_lens(o, rest);
}

/// What is a number and not below is at least.
proof fn lemma_at_least(l: Level)
    ensures
        !l.nan() ==> l.not_below(level::whole_level(5)) == !level::whole_level(5).above(l),
{
    level::whole_levels_are_whole(5);
}

/// Latency has a pod taken away: the service is idle, and has more than its
/// minimum.
pub open spec fn idle_service(m: ManagerState, times: EvaluationTimes, current: nat, c: Option<CoDelState>) -> bool {
    c matches Some(s) && s.idle(times.idle) && current > m.instance_count.min
}

/// Latency has a pod added: the time for one has come, and there is room.
pub open spec fn loaded_service(m: ManagerState, times: EvaluationTimes, current: nat, c: Option<CoDelState>) -> bool {
    &&& c matches Some(s) && s.traffic_checked(times.traffic).scale_due(times.overload)
    &&& current < m.instance_count.max
}

/// The last action lies as far back as the policy asks for; a minute where it
/// says nothing.
pub open spec fn rested(m: ManagerState, now: u128) -> bool {
    let wait = match m.policy.cooldown_duration {
        Some(d) => d,
        None => 60_000_000_000,
    };
    wait == 0 || now - m.last_scale_time >= wait
}

/// A service that is short of pods gets one, with or without latency samples, if
/// the cooldown is over, there is room, and it is not idle.
pub proof fn short_services_grow(
    m: ManagerState,
    times: EvaluationTimes,
    current: nat,
    pods: Map<u128, PodStats>,
    c: Option<CoDelState>,
)
    requires
        pods.dom().finite(),
        rested(m, times.start),
        current < m.instance_count.max,
        m.resource_thresholds matches Some(t) && short_of_pods(t, pods),
        !idle_service(m, times, current, c),
    ensures
        m.outcome(times, current, pods, c).decision == ScalingDecision::ScaleUp(1),
        m.outcome(times, current, pods, c).manager.last_scale_time == times.start,
{
    lemma_short_of_pods(m.resource_thresholds->0, pods);
    if let Some(s) = c {
        codel::looking_changes_no_samples(s, times.traffic, times.idle);
    }
}

/// A pod is added only with a reason: the cooldown is over, there is room, and
/// latency asks for one or the service is short of pods.
pub proof fn growth_has_a_reason(
    m: ManagerState,
    times: EvaluationTimes,
    current: nat,
    pods: Map<u128, PodStats>,
    c: Option<CoDelState>,
)
    requires
        pods.dom().finite(),
        m.outcome(times, current, pods, c).decision is ScaleUp,
    ensures
        m.outcome(times, current, pods, c).decision == ScalingDecision::ScaleUp(1),
        rested(m, times.start),
        current < m.instance_count.max,
        !idle_service(m, times, current, c),
        loaded_service(m, times, current, c) || (m.resource_thresholds matches Some(t) && short_of_pods(t, pods)),
{
    if let Some(t) = m.resource_thresholds {
        lemma_short_of_pods(t, pods);
    }
    if let Some(s) = c {
        codel::looking_changes_no_samples(s, times.traffic, times.idle);
    }
}

/// Latency that asks for a pod gets one, whatever the readings, if the cooldown is
/// over, there is room, and the service is not idle. The request is then noted, so
/// that the next one waits.
pub proof fn sustained_latency_grows_the_service(
    m: ManagerState,
    times: EvaluationTimes,
    current: nat,
    pods: Map<u128, PodStats>,
    c: Option<CoDelState>,
)
    requires
        rested(m, times.start),
        loaded_service(m, times, current, c),
        !idle_service(m, times, current, c),
    ensures
        ({
            let out = m.outcome(times, current, pods, c);
            &&& out.decision == ScalingDecision::ScaleUp(1)
            &&& out.manager.last_scale_time == times.start
            &&& out.manager.state == (ScalingState::CoDelScalingUp { since: times.start, last_scale: times.start })
            &&& out.codel matches Some(s) && s.last_scale_time == times.overload && s.above_since is None
        }),
{
    if let Some(s) = c {
        codel::looking_changes_no_samples(s, times.traffic, times.idle);
        codel::alarms_follow_the_load(s.traffic_checked(times.traffic), times.overload);
    }
}

/// An idle service loses a pod, whatever its readings, once the cooldown is over.
pub proof fn idle_services_shrink(
    m: ManagerState,
    times: EvaluationTimes,
    current: nat,
    pods: Map<u128, PodStats>,
    c: Option<CoDelState>,
)
    requires
        rested(m, times.start),
        idle_service(m, times, current, c),
    ensures
        m.outcome(times, current, pods, c).decision == ScalingDecision::ScaleDown(1),
        m.outcome(times, current, pods, c).manager.last_scale_time == times.start,
{
    if let Some(s) = c {
        codel::looking_changes_no_samples(s, times.traffic, times.idle);
    }
}

/// A service without latency samples, or with samples that let a pod go, loses one
/// where all its pods are used below the scale-down threshold (half, where the
/// policy says nothing), it is not short of pods, the cooldown is over, and it has
/// more than its minimum.
pub proof fn spare_pods_go(
    m: ManagerState,
    times: EvaluationTimes,
    current: nat,
    pods: Map<u128, PodStats>,
    c: Option<CoDelState>,
)
    requires
        pods.dom().finite(),
        rested(m, times.start),
        current > m.instance_count.min,
        m.resource_thresholds matches Some(t) && !short_of_pods(t, pods),
        all_pods_spare(
            pods,
            match m.policy.scale_down_threshold_percentage {
                Some(l) => l,
                None => level::whole_level(50),
            },
        ),
        c matches Some(s) ==> s.idle(times.recheck),
        !loaded_service(m, times, current, c),
    ensures
        m.outcome(times, current, pods, c).decision == ScalingDecision::ScaleDown(1),
        m.outcome(times, current, pods, c).manager.last_scale_time == times.start,
{
    lemma_short_of_pods(m.resource_thresholds->0, pods);
    if let Some(s) = c {
        codel::looking_changes_no_samples(s, times.traffic, times.idle);
        codel::looking_changes_no_samples(s, times.traffic, times.recheck);
        codel::looking_changes_no_samples(s.traffic_checked(times.traffic), times.overload, times.recheck);
    }
    assert forall|k: u128| #[trigger] pods.contains_key(k) && ready(pods[k]) implies usage_below(
        pods[k],
        m.policy.scale_down_threshold(),
    ) by {
        assert(pods_with_readings(pods).contains(k));
    }
}

/// A pod is taken away only with a reason: the cooldown is over, more than the
/// minimum is there, and the service is idle; or all its pods are used below the
/// scale-down threshold, it is not short of pods, and its latency, where there are
/// samples, lets a pod go.
pub proof fn shrinking_has_a_reason(
    m: ManagerState,
    times: EvaluationTimes,
    current: nat,
    pods: Map<u128, PodStats>,
    c: Option<CoDelState>,
)
    requires
        pods.dom().finite(),
        m.outcome(times, current, pods, c).decision is ScaleDown,
    ensures
        m.outcome(times, current, pods, c).decision == ScalingDecision::ScaleDown(1),
        rested(m, times.start),
        current > m.instance_count.min,
        idle_service(m, times, current, c) || {
            &&& !loaded_service(m, times, current, c)
            &&& m.resource_thresholds matches Some(t) && !short_of_pods(t, pods)
            &&& all_pods_spare(
                pods,
                match m.policy.scale_down_threshold_percentage {
                    Some(l) => l,
                    None => level::whole_level(50),
                },
            )
            &&& c matches Some(s) ==> s.idle(times.recheck)
        },
{
    if let Some(t) = m.resource_thresholds {
        lemma_short_of_pods(t, pods);
    }
    if let Some(s) = c {
        codel::looking_changes_no_samples(s, times.traffic, times.idle);
        codel::looking_changes_no_samples(s, times.traffic, times.recheck);
        codel::looking_changes_no_samples(s.traffic_checked(times.traffic), times.overload, times.recheck);
    }
    if !idle_service(m, times, current, c) {
        assert forall|k: u128| #[trigger] pods_with_readings(pods).contains(k) implies {
            let l = m.policy.scale_down_threshold();
            &&& l.above(pods[k].cpu_percentage)
            &&& l.above(pods[k].cpu_percentage_relative)
            &&& l.above(rounding::percentage(pods[k].memory_usage, pods[k].memory_limit))
        } by {
            assert(pods.contains_key(k) && ready(pods[k]));
        }
    }
}

/// A decision to stay changes nothing about the manager; no decision changes what
/// the manager was set up with, nor any latency sample. During the cooldown
/// nothing at all happens.
pub proof fn evaluations_change_little(
    m: ManagerState,
    times: EvaluationTimes,
    current: nat,
    pods: Map<u128, PodStats>,
    c: Option<CoDelState>,
)
    ensures
        ({
            let out = m.outcome(times, current, pods, c);
            &&& out.decision is NoChange ==> out.manager == m
            &&& !(out.decision is NoChange) ==> out.manager.last_scale_time == times.start
            &&& out.manager.service_name == m.service_name
            &&& out.manager.resource_thresholds == m.resource_thresholds
            &&& out.manager.instance_count == m.instance_count
            &&& out.manager.policy == m.policy
            &&& out.codel is Some == c is Some
            &&& out.codel matches Some(s) ==> s.samples == c->0.samples && s.config == c->0.config && s.windows
                == c->0.windows && s.service_name == c->0.service_name
            &&& !rested(m, times.start) ==> out.decision is NoChange && out.codel == c
        }),
{
    if let Some(s) = c {
        codel::looking_changes_no_samples(s, times.traffic, times.idle);
        codel::looking_changes_no_samples(s.traffic_checked(times.traffic), times.overload, times.recheck);
    }
}

/// What the readings alone call for: another pod exactly where the service is
/// short of pods, one less exactly where it is not and all pods can be spared, and
/// nothing without thresholds or readings.
pub proof fn readings_call_for_pods(m: ManagerState, pods: Map<u128, PodStats>)
    requires
        pods.dom().finite(),
    ensures
        m.resource_verdict(pods) is None <==> m.resource_thresholds is None || pods_with_readings(pods).len() == 0,
        m.resource_verdict(pods) == Some(ScalingDecision::ScaleUp(1)) <==> (m.resource_thresholds matches Some(t)
            && short_of_pods(t, pods)),
        m.resource_verdict(pods) == Some(ScalingDecision::ScaleDown(1)) <==> (m.resource_thresholds matches Some(t)
            && !short_of_pods(t, pods) && all_pods_spare(pods, m.policy.scale_down_threshold())),
        m.resource_verdict(pods) matches Some(d) ==> d == ScalingDecision::ScaleUp(1) || d
            == ScalingDecision::ScaleDown(1) || d == ScalingDecision::NoChange,
{
    assert(measured_pods(pods) =~= pods_with_readings(pods));
    if let Some(t) = m.resource_thresholds {
        lemma_short_of_pods(t, pods);
        let l = m.policy.scale_down_threshold();
        if all_below(pods, l) {
            assert forall|k: u128| #[trigger] pods_with_readings(pods).contains(k) implies l.above(
                pods[k].cpu_percentage,
            ) && l.above(pods[k].cpu_percentage_relative) && l.above(
                rounding::percentage(pods[k].memory_usage, pods[k].memory_limit),
            ) by {
                assert(pods.contains_key(k) && ready(pods[k]));
            }
        }
        if all_pods_spare(pods, l) {
            assert forall|k: u128| #[trigger] pods.contains_key(k) && ready(pods[k]) implies usage_below(pods[k], l) by {
                assert(pods_with_readings(pods).contains(k));
            }
        }
    }
}

/// The state of the manager is told in words; where it last grew for latency, and in the
/// other passing states, with whole seconds.
pub proof fn states_are_told_in_words(m: ManagerState, now: u128)
    ensures
        m.state == ScalingState::Normal ==> m.state_text(now) == "normal"@,
        m.state matches ScalingState::CoDelScalingUp { since, last_scale } ==> (last_scale >= since ==> m.state_text(now)
            == "codel_scaling_up_"@ + text::decimal(((last_scale - since) / 1_000_000_000) as nat)),
        m.state matches ScalingState::ResourceScalingDown { since } ==> (since >= now ==> m.state_text(now)
            == "resource_scaling_down_"@ + text::decimal(((since - now) / 1_000_000_000) as nat)),
        m.state matches ScalingState::Cooldown { until } ==> (until >= now ==> m.state_text(now) == "cooldown_"@
            + text::decimal(((until - now) / 1_000_000_000) as nat)),
{
}

/// A policy waits a minute between two actions, and lets pods go below half of what they
/// may use, unless it says otherwise.
pub proof fn policies_fall_back_on_defaults(p: ScalingPolicy)
    ensures
        p.cooldown_duration matches Some(d) ==> p.cooldown() == d,
        p.cooldown_duration is None ==> p.cooldown() == 60_000_000_000,
        p.scale_down_threshold_percentage matches Some(l) ==> p.scale_down_threshold() == l,
        p.scale_down_threshold_percentage is None ==> p.scale_down_threshold() == level::whole_level(50),
{
}

} // verus!
