//! Scaling by resource thresholds alone.
//!
//! Each round looks at every pod, replaces pods that have lost a container, and
//! then adds or takes away one pod. Times are in nanoseconds.

pub mod task;

use crate::config::utils;
use crate::config::utils::ContainerNameError;
use crate::config::InstanceCount;
use crate::config::PodStats;
use crate::config::ResourceThresholds;
use crate::config::ServiceConfig;
use crate::container::lifecycle;
use crate::container::naming;
use crate::container::runtimes::docker;
use crate::container::runtimes::start::StartedContainer;
use crate::container::scaling;
use crate::container::scaling::manager;
use crate::container::scaling::ScaleDown;
use crate::container::InstanceMetadata;
use crate::container::InstanceStore;
use crate::proxy;
use crate::proxy::Endpoint;
use crate::stores;
use rustc_hash::FxHashMap;
use std::collections::HashMap;
use vstd::prelude::*;
use vstd::string::*;

verus! {

/// How often a new container is looked at before it is given up.
pub const MAX_HEALTH_ATTEMPTS: u32 = 30;

/// The time between two looks.
pub const ATTEMPT_INTERVAL: u128 = 1_000_000_000;

/// What to take down of a pod that has lost a container.
pub fn missing_pod(pod: &InstanceMetadata, service_name: &str) -> (r: ScaleDown)
    ensures
        lifecycle::texts(r.containers@) == lifecycle::pod_names(pod.containers@),
        proxy::listing(r.endpoints@) == proxy::endpoints(service_name@, proxy::facts(pod.containers@)),
        docker::optional_text(r.network) == Some(pod.network@),
{
    ScaleDown {
        containers: scaling::names_of(&pod.containers),
        endpoints: proxy::pod_endpoints(service_name, &pod.containers),
        network: Some(pod.network.clone()),
    }
}

/// Takes the pods that have lost a container off the record. The result says how
/// many pods are left; nothing where the service is no longer on record.
pub fn remove_missing_pods(store: &mut InstanceStore, service_name: &str, missing: &Vec<u128>) -> (r: Option<usize>)
    ensures
        ({
            let before = stores::entries(*old(store));
            let left = proxy::pods_of(before, service_name@).remove_keys(missing@.to_set());
            &&& lifecycle::only_pods_changed(before, stores::entries(*final(store)), service_name@, left)
            &&& r is Some == before.contains_key(service_name@)
            &&& r matches Some(n) ==> n == left.len()
        }),
{
    let ghost before = stores::entries(*store);
    let ghost pods = proxy::pods_of(before, service_name@);
    if stores::map_get(store, service_name).is_none() {
        assert(pods.remove_keys(missing@.to_set()) =~= pods);
        return None;
    }
    let mut i: usize = 0;
    assert(pods.remove_keys(missing@.take(0).to_set()) =~= pods);
    while i < missing.len()
        invariant
            i <= missing@.len(),
            pods == proxy::pods_of(before, service_name@),
            lifecycle::only_pods_changed(
                before,
                stores::entries(*store),
                service_name@,
                pods.remove_keys(missing@.take(i as int).to_set()),
            ),
            stores::entries(*store).contains_key(service_name@),
        decreases missing@.len() - i,
    {
        let ghost between = stores::entries(*store);
        lifecycle::remove_pod(store, service_name, missing[i]);
        proof {
            let (a, b) = (missing@.take(i as int), missing@.take(i + 1));
            assert(pods.remove_keys(a.to_set()).remove(missing@[i as int]) =~= pods.remove_keys(b.to_set())) by {
                assert(b =~= a.push(missing@[i as int]));
                assert forall|u: u128| b.to_set().contains(u) == (a.to_set().contains(u) || u == missing@[i as int]) by {
                    assert(b[i as int] == missing@[i as int]);
                    if a.contains(u) {
                        let j = choose|j: int| 0 <= j < a.len() && a[j] == u;
                        assert(b[j] == u);
                    }
                    if b.contains(u) && u != missing@[i as int] {
                        let j = choose|j: int| 0 <= j < b.len() && b[j] == u;
                        assert(a[j] == u);
                    }
                }
            }
            let after = stores::entries(*store);
            assert forall|s: Seq<char>| s != service_name@ implies after.contains_key(s) == #[trigger] before.contains_key(
                s,
            ) by {
                assert(between.contains_key(s) == before.contains_key(s));
            }
            assert forall|s: Seq<char>| s != service_name@ implies #[trigger] after[s] == before[s] by {
                assert(between[s] == before[s]);
            }
        }
        i = i + 1;
    }
    assert(missing@.take(i as int) =~= missing@);
    Some(lifecycle::pod_count(store, service_name))
}

/// Whether pods that were lost are to be replaced, given how many are left.
pub fn replacement_due(left: usize, count: &InstanceCount) -> (r: bool)
    ensures
        r == (left < count.min),
{
    left < count.min as usize
}

/// Whether at least three quarters of the measured pods are overloaded.
pub fn should_scale(thresholds: &ResourceThresholds, pods: &HashMap<u128, PodStats>) -> (r: bool)
    ensures
        r == manager::mostly_overloaded(*thresholds, pods@),
{
    let (exceeding, measured): (usize, usize) = manager::count_overloaded(thresholds, pods);
    measured > 0 && manager::three_quarters(exceeding, measured)
}

/// What a round comes to.
#[derive(Clone, Copy, PartialEq, Eq, Structural, Debug)]
pub enum ThresholdStep {
    /// Add a pod.
    Grow,
    /// Take away this pod.
    Shrink(u128),
    /// Nothing.
    Stay,
}

/// The service is to grow: under load as far as it may, and in any case to its
/// minimum.
pub open spec fn grows(count: InstanceCount, current: nat, load: bool) -> bool {
    (load && current < count.max) || current < count.min
}

/// `r` is what a round comes to, given how many pods it began with.
pub open spec fn is_threshold_step(
    r: ThresholdStep,
    count: InstanceCount,
    current: nat,
    load: bool,
    pods: Map<u128, PodStats>,
) -> bool {
    if grows(count, current, load) {
        r == ThresholdStep::Grow
    } else if load || current <= count.min || pods.len() == 0 {
        r == ThresholdStep::Stay
    } else {
        r matches ThresholdStep::Shrink(u) && scaling::least_used(seq![u], pods, 1)
    }
}

/// What a round comes to, given how many pods it began with.
pub fn threshold_step(count: &InstanceCount, current: usize, load: bool, pods: &HashMap<u128, PodStats>) -> (r:
    ThresholdStep)
    requires
        !grows(*count, current as nat, load) && !load && current > count.min ==> scaling::comparable(pods@),
    ensures
        if grows(*count, current as nat, load) {
            r == ThresholdStep::Grow
        } else if load || current <= count.min || pods@.len() == 0 {
            r == ThresholdStep::Stay
        } else {
            r matches ThresholdStep::Shrink(u) && scaling::least_used(seq![u], pods@, 1)
        },
        is_threshold_step(r, *count, current as nat, load, pods@),
{
    let min: usize = count.min as usize;
    let max: usize = count.max as usize;
    if (load && current < max) || current < min {
        return ThresholdStep::Grow;
    }
    if !load && current > min {
        let least: Vec<u128> = scaling::least_used_pods(pods, 1);
        if least.len() > 0 {
            assert(least@ =~= seq![least@[0]]);
            return ThresholdStep::Shrink(least[0]);
        }
    }
    ThresholdStep::Stay
}

/// Puts a pod on record that was started to grow the service, if the service
/// still is. The result lists the endpoints to put behind the proxies, or says
/// what is wrong with the name of the first container.
pub fn scale_up(store: &mut InstanceStore, service_name: &str, now: u128, started: Vec<StartedContainer>) -> (r: Result<
    Vec<Endpoint>,
    ContainerNameError,
>)
    requires
        started@.len() > 0,
    ensures
        ({
            let before = stores::entries(*old(store));
            let after = stores::entries(*final(store));
            match utils::parsed_name(started@[0].name@) {
                Ok(p) => {
                    &&& r matches Ok(list) && proxy::listing(list@) == scaling::started_endpoints(
                        service_name@,
                        lifecycle::started_facts(started@),
                    )
                    &&& !before.contains_key(service_name@) ==> *final(store) == *old(store)
                    &&& before.contains_key(service_name@) ==> exists|pod: InstanceMetadata|
                        {
                            &&& #[trigger] pod@ == lifecycle::instance_facts(
                                p.uuid,
                                now,
                                naming::pod_network(service_name@, p.uuid),
                                Map::empty(),
                                lifecycle::started_facts(started@),
                            )
                            &&& lifecycle::only_pods_changed(
                                before,
                                after,
                                service_name@,
                                proxy::pods_of(before, service_name@).insert(p.uuid, pod),
                            )
                        }
                },
                Err(e) => r == Err::<Vec<Endpoint>, ContainerNameError>(e) && *final(store) == *old(store),
            }
        }),
{
    let uuid: u128 = match utils::parse_container_name(started[0].name.as_str()) {
        Ok(p) => p.uuid,
        Err(e) => {
            return Err(e);
        },
    };
    let list: Vec<Endpoint> = scaling::endpoints_of(service_name, &started);
    if stores::map_get(store, service_name).is_some() {
        let network: String = naming::pod_network_name(service_name, uuid);
        let none: FxHashMap<String, String> = stores::map_new();
        assert(stores::entries(none).map_values(|h: String| h@) =~= Map::<Seq<char>, Seq<char>>::empty());
        let pod: InstanceMetadata = lifecycle::instance_from(uuid, now, network.as_str(), none, started);
        assert(pod@.uuid == uuid);
        lifecycle::insert_pod(store, service_name, pod);
    }
    Ok(list)
}

/// How a pod is to be taken away; nothing where it cannot go.
pub fn scale_down(store: &InstanceStore, service_name: &str, target_uuid: u128, config: &ServiceConfig) -> (r: Option<
    ScaleDown,
>)
    ensures
        ({
            let pods = proxy::pods_of(stores::entries(*store), service_name@);
            &&& r is Some == scaling::can_go(pods, target_uuid, *config)
            &&& r matches Some(d) ==> {
                let pod = pods[target_uuid];
                &&& lifecycle::texts(d.containers@) == lifecycle::pod_names(pod.containers@)
                &&& proxy::listing(d.endpoints@) == proxy::endpoints(
                    service_name@,
                    proxy::facts(pod.containers@),
                )
                &&& docker::optional_text(d.network) == Some(pod.network@)
            }
        }),
{
    let pods: &HashMap<u128, InstanceMetadata> = match stores::map_get(store, service_name) {
        Some(p) => p,
        None => {
            return None;
        },
    };
    if pods.len() <= config.instance_count.min as usize {
        return None;
    }
    match pods.get(&target_uuid) {
        Some(pod) => Some(missing_pod(pod, service_name)),
        None => None,
    }
}

/// What to do about a container that is awaited.
#[derive(Clone, Copy, PartialEq, Eq, Structural, Debug)]
pub enum WaitStep {
    /// It is there.
    Ready,
    /// It is given up after so many nanoseconds.
    GiveUpAfter(u128),
    /// Look again after so many nanoseconds.
    TryAfter(u128),
}

/// What to do after the `attempt`-th look at a container, counted from one. The
/// thirtieth is the last.
pub fn wait_for_container_health(attempt: u32, answered: bool) -> (r: WaitStep)
    ensures
        r == (if answered {
            WaitStep::Ready
        } else if attempt >= MAX_HEALTH_ATTEMPTS {
            WaitStep::GiveUpAfter(ATTEMPT_INTERVAL)
        } else {
            WaitStep::TryAfter(ATTEMPT_INTERVAL)
        }),
        r == wait_step(attempt, answered),
{
    if answered {
        WaitStep::Ready
    } else if attempt >= MAX_HEALTH_ATTEMPTS {
        WaitStep::GiveUpAfter(ATTEMPT_INTERVAL)
    } else {
        WaitStep::TryAfter(ATTEMPT_INTERVAL)
    }
}

/// What to do about an application that is awaited.
#[derive(Clone, Copy, PartialEq, Eq, Structural, Debug)]
pub enum ReadinessStep {
    /// It is there.
    Ready,
    /// It is given up.
    GiveUp,
    /// Try to connect.
    Connect,
    /// Try to connect after so many nanoseconds, if there is time left then.
    ConnectAfter(u128),
}

/// What to do next, given how long the application has been awaited and, once a
/// connection was tried, whether it came about.
pub fn check_application_readiness(waited: u128, timeout: u128, connected: Option<bool>) -> (r: ReadinessStep)
    ensures
        r == (if connected == Some(true) {
            ReadinessStep::Ready
        } else if waited >= timeout {
            ReadinessStep::GiveUp
        } else if connected is None {
            ReadinessStep::Connect
        } else {
            ReadinessStep::ConnectAfter(ATTEMPT_INTERVAL)
        }),
        r == readiness(waited, timeout, connected),
{
    match connected {
        Some(true) => ReadinessStep::Ready,
        Some(false) => {
            if waited >= timeout {
                ReadinessStep::GiveUp
            } else {
                ReadinessStep::ConnectAfter(ATTEMPT_INTERVAL)
            }
        },
        None => {
            if waited >= timeout {
                ReadinessStep::GiveUp
            } else {
                ReadinessStep::Connect
            }
        },
    }
}

/// A service under load grows unless it has its maximum.
pub proof fn load_grows_up_to_the_maximum(count: InstanceCount, current: nat)
    requires
        current < count.max,
    ensures
        grows(count, current, true),
{
}

/// A service below its minimum grows, whatever its load.
pub proof fn the_minimum_is_restored(count: InstanceCount, current: nat, load: bool)
    requires
        current < count.min,
    ensures
        grows(count, current, load),
{
}

/// A pod is added exactly where fewer than the minimum are there, or fewer than the
/// maximum under load.
pub proof fn pods_are_added_below_the_bounds(count: InstanceCount, current: nat, load: bool)
    ensures
        current < count.min ==> grows(count, current, load),
        load && current < count.max ==> grows(count, current, load),
        current >= count.min && !load ==> !grows(count, current, load),
        current >= count.min && current >= count.max ==> !grows(count, current, load),
{
}

/// What to do after the given attempt to reach a container.
pub open spec fn wait_step(attempt: u32, answered: bool) -> WaitStep {
    if answered {
        WaitStep::Ready
    } else if attempt >= MAX_HEALTH_ATTEMPTS {
        WaitStep::GiveUpAfter(ATTEMPT_INTERVAL)
    } else {
        WaitStep::TryAfter(ATTEMPT_INTERVAL)
    }
}

/// What to do about an application that has been awaited for so long.
pub open spec fn readiness(waited: u128, timeout: u128, connected: Option<bool>) -> ReadinessStep {
    if connected == Some(true) {
        ReadinessStep::Ready
    } else if waited >= timeout {
        ReadinessStep::GiveUp
    } else if connected is None {
        ReadinessStep::Connect
    } else {
        ReadinessStep::ConnectAfter(ATTEMPT_INTERVAL)
    }
}

/// A container that answers is ready; one that does not is tried thirty times, a second
/// apart.
pub proof fn containers_are_tried_thirty_times(attempt: u32)
    ensures
        wait_step(attempt, true) == WaitStep::Ready,
        attempt < 30 ==> wait_step(attempt, false) == WaitStep::TryAfter(1_000_000_000),
        attempt >= 30 ==> wait_step(attempt, false) == WaitStep::GiveUpAfter(1_000_000_000),
{
}

/// An application that takes connections is ready, however late; one that does not is
/// tried every second until the time is up.
pub proof fn applications_are_tried_until_the_timeout(waited: u128, timeout: u128)
    ensures
        readiness(waited, timeout, Some(true)) == ReadinessStep::Ready,
        waited < timeout ==> readiness(waited, timeout, None) == ReadinessStep::Connect,
        waited < timeout ==> readiness(waited, timeout, Some(false)) == ReadinessStep::ConnectAfter(1_000_000_000),
        waited >= timeout ==> readiness(waited, timeout, None) == ReadinessStep::GiveUp && readiness(
            waited,
            timeout,
            Some(false),
        ) == ReadinessStep::GiveUp,
{
}

/// A round adds a pod below the minimum, or below the maximum under load; takes away a
/// pod that is used no more than any other above the minimum without load; and otherwise
/// does nothing.
pub proof fn rounds_come_to_one_pod(
    r: ThresholdStep,
    count: InstanceCount,
    current: nat,
    load: bool,
    pods: Map<u128, PodStats>,
    k: u128,
)
    requires
        is_threshold_step(r, count, current, load, pods),
    ensures
        r == ThresholdStep::Grow <==> (load && current < count.max) || current < count.min,
        r is Shrink <==> !load && current > count.min && pods.len() > 0,
        r matches ThresholdStep::Shrink(u) ==> pods.contains_key(u),
        r is Shrink && pods.contains_key(k) ==> !pods[r->Shrink_0].cpu_percentage.above(pods[k].cpu_percentage),
{
    if let ThresholdStep::Shrink(u) = r {
        let list = seq![u];
        assert(scaling::least_used(list, pods, 1));
        assert(list[0] == u);
        if pods.contains_key(k) {
            scaling::the_least_used_pods_go(list, pods, 1, 0, k);
            if list.contains(k) {
                assert(k == u);
            }
        }
    }
}

} // verus!
