//! Scaling of services.

pub mod codel;
pub mod manager;
pub mod task;

use crate::config::utils;
use crate::config::utils::ContainerNameError;
use crate::config::PodMetricsStrategy;
use crate::config::PodStats;
use crate::config::ScaleMessage;
use crate::config::ServiceConfig;
use crate::container::health::config::HealthCheckConfig;
use crate::container::lifecycle;
use crate::container::naming;
use crate::container::runtimes::docker;
use crate::container::runtimes::start::StartedContainer;
use crate::container::runtimes::start::StartedFacts;
use crate::container::scaling::manager::ScalingDecision;
use crate::container::Container;
use crate::container::ContainerMetadata;
use crate::container::ContainerStats;
use crate::container::InstanceMetadata;
use crate::container::InstanceStore;
use crate::proxy;
use crate::proxy::Endpoint;
use crate::proxy::EndpointFacts;
use crate::stores;
use crate::text;
use rustc_hash::FxHashMap;
use std::collections::HashMap;
use std::sync::Arc;
use vstd::prelude::*;
use vstd::string::*;

verus! {

/// The wait between two rounds of scaling, in nanoseconds.
pub const SCALING_PERIOD: u128 = 10_000_000_000;

/// The time that requests in flight get before their pod goes, in nanoseconds.
pub const DRAIN_TIME: u128 = 10_000_000_000;

/// Scaling pauses for a change of definition and for a rollout, until each is
/// done.
pub open spec fn paused_after(paused: bool, message: ScaleMessage) -> bool {
    match message {
        ScaleMessage::ConfigUpdate => true,
        ScaleMessage::Resume => false,
        ScaleMessage::RollingUpdate => true,
        ScaleMessage::RollingUpdateComplete => false,
    }
}

/// Whether scaling pauses, after a message to some service.
pub fn on_message(paused: bool, service_name: &str, addressee: &str, message: ScaleMessage) -> (r: bool)
    ensures
        r == (if addressee@ == service_name@ {
            paused_after(paused, message)
        } else {
            paused
        }),
{
    if text::same(addressee, service_name) {
        match message {
            ScaleMessage::ConfigUpdate => true,
            ScaleMessage::RollingUpdate => true,
            ScaleMessage::Resume => false,
            ScaleMessage::RollingUpdateComplete => false,
        }
    } else {
        paused
    }
}

/// The error says that the container is gone.
pub open spec fn says_missing(error: Seq<char>) -> bool {
    text::first_occurrence(error, "404"@, 0) is Some || text::first_occurrence(error, "No such container"@, 0) is Some
}

/// Whether an error says that the container is gone.
pub fn is_missing(error: &str) -> (r: bool)
    ensures
        r == says_missing(error@),
{
    text::contains(error, "404") || text::contains(error, "No such container")
}

/// What came of looking at one container of a pod.
#[derive(Debug)]
pub enum Inspection {
    /// Its readings.
    Stats(Arc<ContainerStats>),
    /// The runtime's error.
    Failed(String),
    /// No answer in time.
    TimedOut,
}

/// The readings of a pod's containers, as they come in.
#[derive(Debug)]
pub struct PodReadings {
    pub stats: Vec<Arc<ContainerStats>>,
    /// A container is gone.
    pub missing: bool,
}

/// The readings after one more container.
pub open spec fn readings_after(
    stats: Seq<Arc<ContainerStats>>,
    missing: bool,
    inspection: Inspection,
) -> (Seq<Arc<ContainerStats>>, bool) {
    match inspection {
        Inspection::Stats(s) => (stats.push(s), missing),
        Inspection::Failed(e) => (stats, missing || says_missing(e@)),
        Inspection::TimedOut => (stats, missing),
    }
}

impl PodReadings {
    /// None yet.
    pub fn new() -> (r: Self)
        ensures
            r.stats@ == Seq::<Arc<ContainerStats>>::empty(),
            !r.missing,
    {
        PodReadings { stats: Vec::new(), missing: false }
    }

    /// Takes in what came of one container. The result says whether to go on to
    /// the next: a pod with a container gone is not looked at any further.
    pub fn record(&mut self, inspection: Inspection) -> (r: bool)
        ensures
            (final(self).stats@, final(self).missing) == readings_after(
                old(self).stats@,
                old(self).missing,
                inspection,
            ),
            r == !(inspection is Failed && says_missing(inspection->Failed_0@)),
    {
        match inspection {
            Inspection::Stats(s) => {
                self.stats.push(s);
                true
            },
            Inspection::Failed(e) => {
                if is_missing(e.as_str()) {
                    self.missing = true;
                    false
                } else {
                    true
                }
            },
            Inspection::TimedOut => true,
        }
    }

    /// Whether the pod counts: it is whole, and something was read.
    pub fn counts(&self) -> (r: bool)
        ensures
            r == (!self.missing && self.stats@.len() > 0),
    {
        !self.missing && self.stats.len() > 0
    }
}

/// How the readings of a pod are put together.
pub fn metrics_strategy(config: &ServiceConfig) -> (r: PodMetricsStrategy)
    ensures
        r == (match config.resource_thresholds {
            Some(t) => t.metrics_strategy,
            None => PodMetricsStrategy::Maximum,
        }),
{
    match config.resource_thresholds {
        Some(t) => t.metrics_strategy,
        None => PodMetricsStrategy::Maximum,
    }
}

/// What to do about a decision.
#[derive(Debug)]
pub enum ScalingStep {
    /// Start so many pods, one after the other, until one fails.
    Grow(u32),
    /// Take away these pods, in this order, until one fails.
    Shrink(Vec<u128>),
    /// Decide anew at once.
    Again,
    /// Nothing.
    Stay,
}

/// How many pods to take away: as many as decided, but never below the minimum.
pub open spec fn shrink_count(current: nat, min: nat, n: nat) -> nat {
    if current - min < n {
        (current - min) as nat
    } else {
        n
    }
}

/// Where there is anything to compare, no pod has a CPU reading that is not a
/// number.
pub open spec fn comparable(pods: Map<u128, PodStats>) -> bool {
    pods.len() > 1 ==> forall|k: u128| #[trigger] pods.contains_key(k) ==> !pods[k].cpu_percentage.nan()
}

/// `list` holds the `count` pods with the lowest CPU readings, lowest first; all
/// of them where there are fewer.
pub open spec fn least_used(list: Seq<u128>, pods: Map<u128, PodStats>, count: nat) -> bool {
    &&& list.no_duplicates()
    &&& list.len() == (if count < pods.len() {
        count
    } else {
        pods.len()
    })
    &&& forall|i: int| 0 <= i < list.len() ==> pods.contains_key(#[trigger] list[i])
    &&& forall|i: int, j: int|
        0 <= i < j < list.len() ==> pods[#[trigger] list[i]].cpu_percentage.rank()
            <= pods[#[trigger] list[j]].cpu_percentage.rank()
    &&& forall|i: int, k: u128|
        0 <= i < list.len() && #[trigger] pods.contains_key(k) && !list.contains(k) ==> pods[#[trigger] list[i]].cpu_percentage.rank()
            <= pods[k].cpu_percentage.rank()
}

/// Where the least used of some pods stands.
fn position_of_least(pods: &HashMap<u128, PodStats>, keys: &Vec<u128>) -> (r: usize)
    requires
        keys@.len() > 0,
        forall|i: int| 0 <= i < keys@.len() ==> pods@.contains_key(#[trigger] keys@[i]),
        keys@.len() > 1 ==> forall|k: u128| #[trigger] pods@.contains_key(k) ==> !pods@[k].cpu_percentage.nan(),
    ensures
        r < keys@.len(),
        forall|i: int|
            0 <= i < keys@.len() ==> pods@[keys@[r as int]].cpu_percentage.rank()
                <= pods@[#[trigger] keys@[i]].cpu_percentage.rank(),
{
    let mut best: usize = 0;
    let mut i: usize = 1;
    while i < keys.len()
        invariant
            1 <= i <= keys@.len(),
            best < i,
            keys@.len() > 1 ==> forall|k: u128| #[trigger] pods@.contains_key(k) ==> !pods@[k].cpu_percentage.nan(),
            forall|j: int| 0 <= j < keys@.len() ==> pods@.contains_key(#[trigger] keys@[j]),
            forall|j: int|
                0 <= j < i ==> pods@[keys@[best as int]].cpu_percentage.rank()
                    <= pods@[#[trigger] keys@[j]].cpu_percentage.rank(),
        decreases keys@.len() - i,
    {
        assert(pods@.contains_key(keys@[i as int]));
        assert(pods@.contains_key(keys@[best as int]));
        if let Some(a) = pods.get(&keys[best]) {
            if let Some(b) = pods.get(&keys[i]) {
                if a.cpu_percentage.exceeds(&b.cpu_percentage) {
                    best = i;
                }
            }
        }
        i = i + 1;
    }
    best
}

/// The pods with the lowest CPU readings, lowest first.
pub fn least_used_pods(pods: &HashMap<u128, PodStats>, count: usize) -> (r: Vec<u128>)
    requires
        comparable(pods@),
    ensures
        least_used(r@, pods@, count as nat),
{
    let mut keys: Vec<u128> = stores::id_keys(pods);
    let mut r: Vec<u128> = Vec::new();
    let ghost total = keys@.len();
    assert forall|k: u128| pods@.contains_key(k) implies keys@.contains(k) by {
        assert(keys@.to_set().contains(k));
    }
    while r.len() < count && keys.len() > 0
        invariant
            comparable(pods@),
            keys@.no_duplicates(),
            r@.no_duplicates(),
            r@.len() + keys@.len() == total,
            total == pods@.len(),
            r@.len() <= count,
            forall|i: int| 0 <= i < keys@.len() ==> pods@.contains_key(#[trigger] keys@[i]),
            forall|i: int| 0 <= i < r@.len() ==> pods@.contains_key(#[trigger] r@[i]),
            forall|k: u128| #[trigger] pods@.contains_key(k) ==> keys@.contains(k) || r@.contains(k),
            forall|i: int| 0 <= i < keys@.len() ==> !r@.contains(#[trigger] keys@[i]),
            forall|i: int, j: int|
                0 <= i < j < r@.len() ==> pods@[#[trigger] r@[i]].cpu_percentage.rank()
                    <= pods@[#[trigger] r@[j]].cpu_percentage.rank(),
            forall|i: int, j: int|
                0 <= i < r@.len() && 0 <= j < keys@.len() ==> pods@[#[trigger] r@[i]].cpu_percentage.rank()
                    <= pods@[#[trigger] keys@[j]].cpu_percentage.rank(),
        decreases keys@.len(),
    {
        let at: usize = position_of_least(pods, &keys);
        let ghost before = keys@;
        let ghost chosen = r@;
        let least: u128 = keys.remove(at);
        r.push(least);
        proof {
            assert(least == before[at as int]);
            assert forall|i: int| 0 <= i < keys@.len() implies keys@[i] == before[if i < at { i } else { i + 1 }] by {}
            assert(!chosen.contains(least));
            assert(r@.no_duplicates()) by {
                assert forall|i: int, j: int| 0 <= i < r@.len() && 0 <= j < r@.len() && i != j implies r@[i] != r@[j] by {
                    if i < chosen.len() && j < chosen.len() {
                        assert(chosen[i] != chosen[j]);
                    } else if i < chosen.len() {
                        assert(chosen[i] == r@[i]);
                        assert(chosen.contains(r@[i]));
                    } else {
                        assert(chosen[j] == r@[j]);
                        assert(chosen.contains(r@[j]));
                    }
                }
            }
            assert forall|k: u128| #[trigger] pods@.contains_key(k) implies keys@.contains(k) || r@.contains(k) by {
                assert(before.contains(k) || chosen.contains(k));
                if chosen.contains(k) {
                    let j = choose|j: int| 0 <= j < chosen.len() && chosen[j] == k;
                    assert(r@[j] == k);
                } else {
                    let j = choose|j: int| 0 <= j < before.len() && before[j] == k;
                    if j == at {
                        assert(r@[chosen.len() as int] == k);
                    } else if j < at {
                        assert(keys@[j] == k);
                    } else {
                        assert(keys@[j - 1] == k);
                    }
                }
            }
            assert forall|i: int| 0 <= i < keys@.len() implies !r@.contains(#[trigger] keys@[i]) by {
                let o = if i < at { i } else { i + 1 };
                assert(keys@[i] == before[o]);
                assert(before[o] != before[at as int]);
                assert(!chosen.contains(before[o]));
                if r@.contains(keys@[i]) {
                    let j = choose|j: int| 0 <= j < r@.len() && r@[j] == keys@[i];
                    if j < chosen.len() {
                        assert(chosen[j] == keys@[i]);
                    }
                }
            }
        }
    }
    r
}

/// `r` is what to do about a decision.
pub open spec fn is_step(
    r: ScalingStep,
    decision: ScalingDecision,
    current: nat,
    min: nat,
    pods: Map<u128, PodStats>,
) -> bool {
    match decision {
        ScalingDecision::ScaleUp(n) => r == ScalingStep::Grow(n),
        ScalingDecision::ScaleDown(n) => if current <= min {
            r is Again
        } else if n == 0 {
            r is Stay
        } else {
            r matches ScalingStep::Shrink(list) && least_used(list@, pods, shrink_count(current, min, n as nat))
        },
        ScalingDecision::NoChange => r is Stay,
    }
}

/// What to do about a decision.
pub fn scaling_step(decision: &ScalingDecision, current_count: usize, min_count: usize, pods: &HashMap<u128, PodStats>) -> (r:
    ScalingStep)
    requires
        decision matches ScalingDecision::ScaleDown(n) && n > 0 && current_count > min_count ==> comparable(pods@),
    ensures
        match *decision {
            ScalingDecision::ScaleUp(n) => r == ScalingStep::Grow(n),
            ScalingDecision::ScaleDown(n) => if current_count <= min_count {
                r is Again
            } else if n == 0 {
                r is Stay
            } else {
                r matches ScalingStep::Shrink(list) && least_used(
                    list@,
                    pods@,
                    shrink_count(current_count as nat, min_count as nat, n as nat),
                )
            },
            ScalingDecision::NoChange => r is Stay,
        },
        is_step(r, *decision, current_count as nat, min_count as nat, pods@),
{
    match decision {
        ScalingDecision::ScaleUp(n) => ScalingStep::Grow(*n),
        ScalingDecision::ScaleDown(n) => {
            if current_count <= min_count {
                return ScalingStep::Again;
            }
            let spare: usize = current_count - min_count;
            let count: usize = if spare < *n as usize {
                spare
            } else {
                *n as usize
            };
            if count == 0 {
                return ScalingStep::Stay;
            }
            ScalingStep::Shrink(least_used_pods(pods, count))
        },
        ScalingDecision::NoChange => ScalingStep::Stay,
    }
}

/// Shrinking leaves at least the minimum.
pub proof fn shrinking_keeps_the_minimum(list: Seq<u128>, pods: Map<u128, PodStats>, current: nat, min: nat, n: nat)
    requires
        min < current,
        least_used(list, pods, shrink_count(current, min, n)),
    ensures
        current - list.len() >= min,
{
}

/// Whether the service may get another pod.
pub fn may_grow(store: &InstanceStore, service_name: &str, config: &ServiceConfig) -> (r: bool)
    ensures
        r == (proxy::pods_of(stores::entries(*store), service_name@).len() < config.instance_count.max),
{
    lifecycle::pod_count(store, service_name) < config.instance_count.max as usize
}

/// Where a container of that name is defined first.
pub open spec fn defined_at(containers: Seq<Container>, name: Seq<char>, i: int) -> bool {
    &&& 0 <= i < containers.len()
    &&& containers[i].name@ == name
    &&& forall|j: int| 0 <= j < i ==> (#[trigger] containers[j]).name@ != name
}

/// The container of that name.
pub fn find_container<'a>(containers: &'a Vec<Container>, name: &str) -> (r: Option<&'a Container>)
    ensures
        match r {
            Some(c) => exists|i: int| #[trigger] defined_at(containers@, name@, i) && containers@[i] == *c,
            None => forall|i: int| 0 <= i < containers@.len() ==> (#[trigger] containers@[i]).name@ != name@,
        },
{
    let mut i: usize = 0;
    while i < containers.len()
        invariant
            i <= containers@.len(),
            forall|j: int| 0 <= j < i ==> (#[trigger] containers@[j]).name@ != name@,
        decreases containers@.len() - i,
    {
        if text::same(containers[i].name.as_str(), name) {
            assert(defined_at(containers@, name@, i as int));
            return Some(&containers[i]);
        }
        i = i + 1;
    }
    None
}

/// A container to watch, and how.
#[derive(Debug)]
pub struct HealthTarget {
    pub container_name: String,
    pub config: Option<HealthCheckConfig>,
}

/// How the container of that name is to be watched; nothing where the name is
/// not one of a container that is defined.
pub open spec fn health_target(
    parsed: Result<utils::NameFacts, ContainerNameError>,
    containers: Seq<Container>,
) -> Option<Option<HealthCheckConfig>>
    decreases containers.len(),
{
    match parsed {
        Ok(p) => if containers.len() == 0 {
            None
        } else if containers[0].name@ == p.container_name {
            Some(containers[0].health_check)
        } else {
            health_target(parsed, containers.skip(1))
        },
        Err(_) => None,
    }
}

/// The containers to watch among those that were started, in order.
pub open spec fn health_targets_of(
    started: Seq<StartedContainer>,
    containers: Seq<Container>,
) -> Seq<(Seq<char>, Option<HealthCheckConfig>)>
    decreases started.len(),
{
    if started.len() == 0 {
        Seq::empty()
    } else {
        let rest = health_targets_of(started.drop_last(), containers);
        match health_target(utils::parsed_name(started.last().name@), containers) {
            Some(h) => rest.push((started.last().name@, h)),
            None => rest,
        }
    }
}

/// The first container of a name decides how it is watched.
proof fn lemma_health_target(parsed: utils::NameFacts, containers: Seq<Container>, i: int)
    requires
        defined_at(containers, parsed.container_name, i),
    ensures
        health_target(Ok(parsed), containers) == Some(containers[i].health_check),
    decreases i,
{
    if i > 0 {
        assert(containers[0].name@ != parsed.container_name);
        let rest = containers.skip(1);
        assert forall|j: int| 0 <= j < i - 1 implies (#[trigger] rest[j]).name@ != parsed.container_name by {
            assert(rest[j] == containers[j + 1]);
        }
        assert(rest[i - 1] == containers[i]);
        lemma_health_target(parsed, rest, i - 1);
    }
}

proof fn lemma_no_health_target(parsed: utils::NameFacts, containers: Seq<Container>)
    requires
        forall|i: int| 0 <= i < containers.len() ==> (#[trigger] containers[i]).name@ != parsed.container_name,
    ensures
        health_target(Ok(parsed), containers) is None,
    decreases containers.len(),
{
    if containers.len() > 0 {
        let rest = containers.skip(1);
        assert forall|j: int| 0 <= j < rest.len() implies (#[trigger] rest[j]).name@ != parsed.container_name by {
            assert(rest[j] == containers[j + 1]);
        }
        lemma_no_health_target(parsed, rest);
    }
}

/// Some targets, as they read.
pub open spec fn target_facts(t: Seq<HealthTarget>) -> Seq<(Seq<char>, Option<HealthCheckConfig>)> {
    t.map_values(|h: HealthTarget| (h.container_name@, h.config))
}

/// The containers to watch among those that were started.
pub fn health_targets(started: &Vec<StartedContainer>, config: &ServiceConfig) -> (r: Vec<HealthTarget>)
    ensures
        target_facts(r@) == health_targets_of(started@, config.spec.containers@),
{
    let mut r: Vec<HealthTarget> = Vec::new();
    let mut i: usize = 0;
    assert(started@.take(0) =~= Seq::empty());
    assert(target_facts(r@) =~= Seq::empty());
    while i < started.len()
        invariant
            i <= started@.len(),
            target_facts(r@) == health_targets_of(started@.take(i as int), config.spec.containers@),
        decreases started@.len() - i,
    {
        let ghost before = r@;
        proof {
            assert(started@.take(i + 1).drop_last() =~= started@.take(i as int));
            assert(started@.take(i + 1).last() == started@[i as int]);
        }
        let name: &String = &started[i].name;
        if let Ok(parts) = utils::parse_container_name(name.as_str()) {
            match find_container(&config.spec.containers, parts.container_name.as_str()) {
                Some(c) => {
                    proof {
                        let j = choose|j: int| #[trigger]
                            defined_at(config.spec.containers@, parts.container_name@, j)
                                && config.spec.containers@[j] == *c;
                        lemma_health_target(parts@, config.spec.containers@, j);
                    }
                    let target: HealthTarget = HealthTarget { container_name: name.clone(), config: c.health_check };
                    r.push(target);
                    assert(target_facts(r@) =~= target_facts(before).push((name@, c.health_check)));
                },
                None => {
                    proof {
                        lemma_no_health_target(parts@, config.spec.containers@);
                    }
                },
            }
        }
        i = i + 1;
    }
    assert(started@.take(i as int) =~= started@);
    r
}

/// The endpoints of some started containers, in order.
pub open spec fn started_endpoints(
    service: Seq<char>,
    started: Seq<StartedFacts>,
) -> Seq<EndpointFacts>
    decreases started.len(),
{
    if started.len() == 0 {
        Seq::empty()
    } else {
        started_endpoints(service, started.drop_last()) + proxy::port_endpoints(
            service,
            started.last().ip,
            started.last().ports,
        )
    }
}

/// The endpoints of some started containers.
pub fn endpoints_of(service_name: &str, started: &Vec<StartedContainer>) -> (r: Vec<Endpoint>)
    ensures
        proxy::listing(r@) == started_endpoints(
            service_name@,
            lifecycle::started_facts(started@),
        ),
{
    let mut r: Vec<Endpoint> = Vec::new();
    let mut i: usize = 0;
    let ghost all = lifecycle::started_facts(started@);
    assert(all.take(0) =~= Seq::empty());
    assert(proxy::listing(r@) =~= Seq::empty());
    while i < started.len()
        invariant
            i <= started@.len(),
            all == lifecycle::started_facts(started@),
            proxy::listing(r@) == started_endpoints(service_name@, all.take(i as int)),
        decreases started@.len() - i,
    {
        proof {
            assert(all.take(i + 1).drop_last() =~= all.take(i as int));
            assert(all.take(i + 1).last() == started@[i as int]@);
        }
        proxy::push_port_endpoints(&mut r, service_name, started[i].ip.as_str(), &started[i].ports);
        i = i + 1;
    }
    assert(all.take(i as int) =~= all);
    r
}

/// Puts a pod on record that was started to grow the service, under the UUID in
/// the name of its first container. The result lists the endpoints to put behind
/// the proxies, or says what is wrong with that name.
pub fn scale_up(
    store: &mut InstanceStore,
    service_name: &str,
    now: u128,
    image_hash: FxHashMap<String, String>,
    started: Vec<StartedContainer>,
) -> (r: Result<Vec<Endpoint>, ContainerNameError>)
    requires
        started@.len() > 0,
    ensures
        ({
            let before = stores::entries(*old(store));
            let after = stores::entries(*final(store));
            match utils::parsed_name(started@[0].name@) {
                Ok(p) => {
                    &&& r matches Ok(list) && proxy::listing(list@) == started_endpoints(
                        service_name@,
                        lifecycle::started_facts(started@),
                    )
                    &&& exists|pod: InstanceMetadata|
                        {
                            &&& #[trigger] pod@ == lifecycle::instance_facts(
                                p.uuid,
                                now,
                                naming::pod_network(service_name@, p.uuid),
                                stores::entries(image_hash).map_values(|h: String| h@),
                                lifecycle::started_facts(started@),
                            )
                            &&& lifecycle::only_pods_changed(
                                before,
                                after,
                                service_name@,
                                proxy::pods_of(before, service_name@).insert(p.uuid, pod),
                            )
                        }
                },
                Err(e) => r == Err::<Vec<Endpoint>, ContainerNameError>(e) && *final(store) == *old(store),
            }
        }),
{
    let uuid: u128 = match utils::parse_container_name(started[0].name.as_str()) {
        Ok(p) => p.uuid,
        Err(e) => {
            return Err(e);
        },
    };
    let network: String = naming::pod_network_name(service_name, uuid);
    let list: Vec<Endpoint> = endpoints_of(service_name, &started);
    let pod: InstanceMetadata = lifecycle::instance_from(uuid, now, network.as_str(), image_hash, started);
    assert(pod@.uuid == uuid);
    lifecycle::insert_pod(store, service_name, pod);
    Ok(list)
}

/// How a pod is taken away.
#[derive(Debug)]
pub struct ScaleDown {
    /// The containers to stop watching, and to stop once requests are done.
    pub containers: Vec<String>,
    /// The endpoints to take away from behind their proxies.
    pub endpoints: Vec<Endpoint>,
    /// The network that is no longer used.
    pub network: Option<String>,
}

/// The pod can go: it is on record, and the service has more than its minimum.
pub open spec fn can_go(pods: Map<u128, InstanceMetadata>, uuid: u128, config: ServiceConfig) -> bool {
    pods.len() > config.instance_count.min && pods.contains_key(uuid)
}

/// The names of some containers.
pub fn names_of(containers: &Vec<ContainerMetadata>) -> (r: Vec<String>)
    ensures
        lifecycle::texts(r@) == lifecycle::pod_names(containers@),
{
    let mut r: Vec<String> = Vec::new();
    let mut i: usize = 0;
    while i < containers.len()
        invariant
            i <= containers@.len(),
            r@.len() == i,
            forall|j: int| 0 <= j < i ==> (#[trigger] r@[j])@ == containers@[j].name@,
        decreases containers@.len() - i,
    {
        r.push(containers[i].name.clone());
        i = i + 1;
    }
    assert(lifecycle::texts(r@) =~= lifecycle::pod_names(containers@));
    r
}

/// How a pod is to be taken away; nothing where it cannot go.
pub fn scale_down(store: &InstanceStore, service_name: &str, target_uuid: u128, config: &ServiceConfig) -> (r: Option<
    ScaleDown,
>)
    ensures
        ({
            let pods = proxy::pods_of(stores::entries(*store), service_name@);
            &&& r is Some == can_go(pods, target_uuid, *config)
            &&& r matches Some(d) ==> {
                let pod = pods[target_uuid];
                &&& lifecycle::texts(d.containers@) == lifecycle::pod_names(pod.containers@)
                &&& proxy::listing(d.endpoints@) == proxy::endpoints(
                    service_name@,
                    proxy::facts(pod.containers@),
                )
                &&& docker::optional_text(d.network) == (if config.network is None {
                    Some(pod.network@)
                } else {
                    None
                })
                &&& is_scale_down(d, service_name@, pod, config.network is None)
            }
        }),
{
    let pods: &HashMap<u128, InstanceMetadata> = match stores::map_get(store, service_name) {
        Some(p) => p,
        None => {
            return None;
        },
    };
    if pods.len() <= config.instance_count.min as usize {
        return None;
    }
    match pods.get(&target_uuid) {
        Some(pod) => {
            let network: Option<String> = if config.network.is_none() {
                Some(pod.network.clone())
            } else {
                None
            };
            Some(
                ScaleDown {
                    containers: names_of(&pod.containers),
                    endpoints: proxy::pod_endpoints(service_name, &pod.containers),
                    network,
                },
            )
        },
        None => None,
    }
}

/// What was put behind the proxies for a pod is what is taken away when it goes.
pub proof fn endpoints_come_and_go_alike(service: Seq<char>, network: Seq<char>, started: Seq<StartedFacts>)
    ensures
        proxy::endpoints(
            service,
            started.map_values(|s: StartedFacts| lifecycle::container_facts(network, s)),
        ) == started_endpoints(service, started),
    decreases started.len(),
{
    let all = started.map_values(|s: StartedFacts| lifecycle::container_facts(network, s));
    if started.len() > 0 {
        let rest = started.drop_last();
        assert(all.drop_last() =~= rest.map_values(|s: StartedFacts| lifecycle::container_facts(network, s)));
        endpoints_come_and_go_alike(service, network, rest);
    }
}

/// A pod that went leaves at least the minimum.
pub proof fn the_minimum_remains(pods: Map<u128, InstanceMetadata>, uuid: u128, config: ServiceConfig)
    requires
        can_go(pods, uuid, config),
        pods.dom().finite(),
    ensures
        pods.remove(uuid).len() >= config.instance_count.min,
{
    assert(pods.remove(uuid).dom() =~= pods.dom().remove(uuid));
}

/// `part` stands somewhere in `whole`.
pub open spec fn holds_text(whole: Seq<char>, part: Seq<char>) -> bool {
    exists|before: Seq<char>, after: Seq<char>| whole == #[trigger] (before + part + after)
}

/// A container is missing exactly where the error holds one of the two texts that
/// say so.
pub proof fn missing_containers_are_told_by_their_error(error: Seq<char>)
    ensures
        says_missing(error) == (holds_text(error, "404"@) || holds_text(error, "No such container"@)),
{
    lemma_holds_text(error, "404"@);
    lemma_holds_text(error, "No such container"@);
}

pub(crate) proof fn lemma_holds_text(whole: Seq<char>, part: Seq<char>)
    ensures
        text::first_occurrence(whole, part, 0) is Some == holds_text(whole, part),
{
    text::lemma_first_occurrence(whole, part, 0);
    if let Some(i) = text::first_occurrence(whole, part, 0) {
        let (before, after) = (whole.take(i), whole.skip(i + part.len()));
        assert(whole =~= before + part + after);
    }
    if holds_text(whole, part) {
        let (before, after) = choose|before: Seq<char>, after: Seq<char>| whole == #[trigger] (before + part + after);
        let i = before.len() as int;
        assert(whole.subrange(i, i + part.len()) =~= part);
        assert(text::occurs_at(whole, part, i));
    }
}

/// A look that gives readings adds them to those of the pod, at the end; one that
/// fails adds none, and tells that a container is missing only where the error says
/// so. Once one is missing, it stays so; a look that takes too long changes nothing.
pub proof fn looks_add_readings(
    stats: Seq<Arc<ContainerStats>>,
    missing: bool,
    s: Arc<ContainerStats>,
    e: String,
)
    ensures
        readings_after(stats, missing, Inspection::Stats(s)) == (stats.push(s), missing),
        readings_after(stats, missing, Inspection::TimedOut) == (stats, missing),
        readings_after(stats, missing, Inspection::Failed(e)).0 == stats,
        readings_after(stats, missing, Inspection::Failed(e)).1 == (missing || holds_text(e@, "404"@) || holds_text(
            e@,
            "No such container"@,
        )),
{
    missing_containers_are_told_by_their_error(e@);
}

/// The pods that go are those used least: none of them is used more than one that
/// stays, they come in order of use, and there are as many as asked for, or all.
pub proof fn the_least_used_pods_go(list: Seq<u128>, pods: Map<u128, PodStats>, count: nat, i: int, k: u128)
    requires
        least_used(list, pods, count),
        0 <= i < list.len(),
        pods.contains_key(k),
    ensures
        pods.contains_key(list[i]),
        !list.contains(k) ==> !pods[list[i]].cpu_percentage.above(pods[k].cpu_percentage),
        forall|j: int| i < j < list.len() ==> !pods[list[i]].cpu_percentage.above(pods[#[trigger] list[j]].cpu_percentage)
            && list[i] != list[j],
        list.len() <= count,
        list.len() < count ==> list.len() == pods.len(),
{
}

/// As many pods go as were decided on, but never so many that fewer than the
/// minimum are left, and no fewer than both allow.
pub proof fn pods_go_down_to_the_minimum(current: nat, min: nat, n: nat)
    requires
        min <= current,
    ensures
        shrink_count(current, min, n) <= n,
        current - shrink_count(current, min, n) >= min,
        shrink_count(current, min, n) == n || current - shrink_count(current, min, n) == min,
{
}

/// A pod can go exactly while it is on record and more than the minimum are.
pub proof fn pods_above_the_minimum_can_go(pods: Map<u128, InstanceMetadata>, uuid: u128, config: ServiceConfig)
    ensures
        pods.contains_key(uuid) && pods.len() > config.instance_count.min <==> can_go(pods, uuid, config),
{
}

/// A change of definition and a rollout pause the scaling, their end resumes it,
/// whatever was before.
pub proof fn updates_pause_the_scaling(paused: bool)
    ensures
        paused_after(paused, ScaleMessage::ConfigUpdate),
        paused_after(paused, ScaleMessage::RollingUpdate),
        !paused_after(paused, ScaleMessage::Resume),
        !paused_after(paused, ScaleMessage::RollingUpdateComplete),
{
}

/// A started container is watched as its definition says: the first definition with
/// the container's name in the name that it runs under. It is not watched where
/// that name cannot be read, or nothing is defined under it.
pub proof fn started_containers_are_watched_as_defined(
    started: Seq<StartedContainer>,
    containers: Seq<Container>,
    s: int,
)
    requires
        0 <= s < started.len(),
    ensures
        ({
            let name = started[s].name@;
            let list = health_targets_of(started, containers);
            match utils::parsed_name(name) {
                Ok(parts) => {
                    &&& forall|i: int|
                        defined_at(containers, parts.container_name, i) ==> list.contains(
                            (name, (#[trigger] containers[i]).health_check),
                        )
                    &&& (forall|i: int|
                        0 <= i < containers.len() ==> (#[trigger] containers[i]).name@ != parts.container_name) ==> forall|
                        h: Option<HealthCheckConfig>,
                    | !#[trigger] list.contains((name, h))
                },
                Err(_) => forall|h: Option<HealthCheckConfig>| !#[trigger] list.contains((name, h)),
            }
        }),
        health_targets_of(started, containers).len() <= started.len(),
    decreases started.len(),
{
    let name = started[s].name@;
    let list = health_targets_of(started, containers);
    let rest = started.drop_last();
    let before = health_targets_of(rest, containers);
    lemma_targets_short(started, containers);
    lemma_targets(started, containers);
    match utils::parsed_name(name) {
        Ok(parts) => {
            assert forall|i: int| defined_at(containers, parts.container_name, i) implies list.contains(
                (name, (#[trigger] containers[i]).health_check),
            ) by {
                lemma_health_target(parts, containers, i);
                lemma_target_kept(started, containers, s, containers[i].health_check);
            }
            if forall|i: int| 0 <= i < containers.len() ==> (#[trigger] containers[i]).name@ != parts.container_name {
                lemma_no_health_target(parts, containers);
            }
        },
        Err(_) => {},
    }
}

/// What is listed is the target of a started container.
proof fn lemma_targets(started: Seq<StartedContainer>, containers: Seq<Container>)
    ensures
        forall|name: Seq<char>, h: Option<HealthCheckConfig>| #[trigger]
            health_targets_of(started, containers).contains((name, h)) ==> health_target(
                utils::parsed_name(name),
                containers,
            ) == Some(h),
    decreases started.len(),
{
    if started.len() > 0 {
        lemma_targets(started.drop_last(), containers);
        let rest = health_targets_of(started.drop_last(), containers);
        let list = health_targets_of(started, containers);
        assert forall|name: Seq<char>, h: Option<HealthCheckConfig>| #[trigger] list.contains(
            (name, h),
        ) implies health_target(utils::parsed_name(name), containers) == Some(h) by {
            let i = choose|i: int| 0 <= i < list.len() && list[i] == (name, h);
            if i < rest.len() {
                assert(rest[i] == (name, h));
                assert(rest.contains((name, h)));
            }
        }
    }
}

proof fn lemma_targets_short(started: Seq<StartedContainer>, containers: Seq<Container>)
    ensures
        health_targets_of(started, containers).len() <= started.len(),
    decreases started.len(),
{
    if started.len() > 0 {
        lemma_targets_short(started.drop_last(), containers);
    }
}

/// The target of a started container is listed.
proof fn lemma_target_kept(
    started: Seq<StartedContainer>,
    containers: Seq<Container>,
    s: int,
    h: Option<HealthCheckConfig>,
)
    requires
        0 <= s < started.len(),
        health_target(utils::parsed_name(started[s].name@), containers) == Some(h),
    ensures
        health_targets_of(started, containers).contains((started[s].name@, h)),
    decreases started.len(),
{
    let wanted = (started[s].name@, h);
    let rest = health_targets_of(started.drop_last(), containers);
    let list = health_targets_of(started, containers);
    if s < started.len() - 1 {
        lemma_target_kept(started.drop_last(), containers, s, h);
        let i = choose|i: int| 0 <= i < rest.len() && rest[i] == wanted;
        assert(list[i] == wanted);
    } else {
        assert(list[rest.len() as int] == wanted);
    }
}

/// A decision to grow is followed by as much; a decision to shrink by taking away that
/// many measured pods, as far as the minimum allows and pods were measured, the least
/// used first; and to stay by nothing.
pub proof fn steps_follow_the_decision(
    r: ScalingStep,
    decision: ScalingDecision,
    current: nat,
    min: nat,
    pods: Map<u128, PodStats>,
)
    requires
        is_step(r, decision, current, min, pods),
    ensures
        decision matches ScalingDecision::ScaleUp(n) ==> r == ScalingStep::Grow(n),
        decision is NoChange ==> r is Stay,
        decision is ScaleDown && current <= min ==> r is Again,
        decision is ScaleDown && decision->ScaleDown_0 > 0 && current > min ==> {
            &&& r is Shrink
            &&& r->Shrink_0@.len() <= decision->ScaleDown_0
            &&& current - r->Shrink_0@.len() >= min
            &&& r->Shrink_0@.len() == decision->ScaleDown_0 || current - r->Shrink_0@.len() == min || r->Shrink_0@.len() == pods.len()
            &&& forall|i: int, k: u128|
                0 <= i < r->Shrink_0@.len() && #[trigger] pods.contains_key(k) && !r->Shrink_0@.contains(k)
                    ==> !pods[#[trigger] r->Shrink_0@[i]].cpu_percentage.above(pods[k].cpu_percentage)
        },
{
}

/// `d` is how the pod is taken away, with its network where it has one of its own.
pub open spec fn is_scale_down(d: ScaleDown, service: Seq<char>, pod: InstanceMetadata, own_network: bool) -> bool {
    &&& lifecycle::texts(d.containers@) == lifecycle::pod_names(pod.containers@)
    &&& proxy::listing(d.endpoints@) == proxy::endpoints(service, proxy::facts(pod.containers@))
    &&& docker::optional_text(d.network) == (if own_network {
        Some(pod.network@)
    } else {
        None
    })
}

/// A pod is taken away whole: every container of it is stopped, every endpoint of it taken
/// from behind its proxy, and its network removed unless the service names it.
pub proof fn pods_are_taken_away_whole(
    d: ScaleDown,
    service: Seq<char>,
    pod: InstanceMetadata,
    own_network: bool,
    c: int,
    p: int,
    node_port: u16,
)
    requires
        is_scale_down(d, service, pod, own_network),
        0 <= c < pod.containers@.len(),
    ensures
        d.containers@.len() == pod.containers@.len(),
        d.containers@[c]@ == pod.containers@[c].name@,
        0 <= p < pod.containers@[c].ports@.len() && pod.containers@[c].ports@[p].node_port == Some(node_port)
            ==> proxy::has_endpoint(
            proxy::listing(d.endpoints@),
            service + "__"@ + text::decimal(node_port as nat),
            pod.containers@[c].ip_address@ + ":"@ + text::decimal(pod.containers@[c].ports@[p].port as nat),
        ),
        own_network ==> (d.network matches Some(n) && n@ == pod.network@),
        !own_network ==> d.network is None,
{
    let names = lifecycle::texts(d.containers@);
    assert(names.len() == d.containers@.len());
    assert(names[c] == d.containers@[c]@);
    assert(lifecycle::pod_names(pod.containers@)[c] == pod.containers@[c].name@);
    if 0 <= p < pod.containers@[c].ports@.len() && pod.containers@[c].ports@[p].node_port == Some(node_port) {
        let all = proxy::facts(pod.containers@);
        assert(all[c] == pod.containers@[c]@);
        proxy::lemma_endpoint_listed(service, all, c, p, node_port);
    }
}

} // verus!
