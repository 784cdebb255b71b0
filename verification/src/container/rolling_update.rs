//! Rolling out new images: new pods first, then the old ones go.
//!
//! Times are in nanoseconds.

use crate::config::utils;
use crate::config::utils::ContainerNameError;
use crate::config::RollingUpdateConfig;
use crate::config::ServiceConfig;
use crate::container::lifecycle;
use crate::container::naming;
use crate::container::rollout;
use crate::container::rollout::RolloutAction;
use crate::container::rollout::RolloutFacts;
use crate::container::rollout::RolloutTask;
use crate::container::runtimes::docker;
use crate::container::runtimes::start::StartedContainer;
use crate::container::scaling;
use crate::container::ContainerMetadata;
use crate::container::InstanceMetadata;
use crate::container::InstanceStore;
use crate::proxy;
use crate::proxy::Endpoint;
use crate::stores;
use rustc_hash::FxHashMap;
use std::collections::HashMap;
use vstd::prelude::*;
use vstd::string::*;

verus! {

/// The time between two looks for new images where a definition gives none.
pub const DEFAULT_CHECK_INTERVAL: u128 = 300_000_000_000;

/// The time between two looks at new pods.
pub const READY_CHECK_INTERVAL: u128 = 1_000_000_000;

/// The time that requests in flight get before their pod goes.
pub const DRAIN_TIME: u128 = 5_000_000_000;

/// How far a rollout has come.
#[derive(Debug)]
pub struct UpdateState {
    pub in_progress: bool,
    pub current_pod: Option<u128>,
    pub updated_pods: Vec<u128>,
    pub start_time: Option<u128>,
}

impl Default for RollingUpdateConfig {
    fn default() -> (r: Self)
        ensures
            r == default_rollout(),
    {
        RollingUpdateConfig { max_unavailable: 1, max_surge: 1, timeout: 300_000_000_000 }
    }
}

/// One pod down, one pod more, and five minutes to become ready.
pub open spec fn default_rollout() -> RollingUpdateConfig {
    RollingUpdateConfig { max_unavailable: 1, max_surge: 1, timeout: 300_000_000_000 }
}

/// The time between two looks for new images.
pub fn check_interval(config: &ServiceConfig) -> (r: u128)
    ensures
        r == (match config.image_check_interval {
            Some(i) => i,
            None => DEFAULT_CHECK_INTERVAL,
        }),
{
    match config.image_check_interval {
        Some(i) => i,
        None => DEFAULT_CHECK_INTERVAL,
    }
}

/// Images by container name, as texts.
pub open spec fn images(m: FxHashMap<String, String>) -> Map<Seq<char>, Seq<char>> {
    stores::entries(m).map_values(|h: String| h@)
}

/// Every image of `a` is in `b`.
pub open spec fn within(a: Map<Seq<char>, Seq<char>>, b: Map<Seq<char>, Seq<char>>) -> bool {
    forall|k: Seq<char>| #[trigger] a.contains_key(k) ==> b.contains_key(k) && b[k] == a[k]
}

/// Whether every image of `a` is in `b`.
fn is_within(a: &FxHashMap<String, String>, b: &FxHashMap<String, String>) -> (r: bool)
    ensures
        r == within(images(*a), images(*b)),
{
    let keys: Vec<String> = stores::map_keys(a);
    let ghost names = keys@.map_values(|s: String| s@);
    let mut i: usize = 0;
    while i < keys.len()
        invariant
            i <= keys@.len(),
            names == keys@.map_values(|s: String| s@),
            forall|k: Seq<char>| stores::entries(*a).contains_key(k) == names.contains(k),
            forall|j: int|
                0 <= j < i ==> images(*b).contains_key(#[trigger] names[j]) && images(*b)[names[j]] == images(*a)[names[j]],
        decreases keys@.len() - i,
    {
        assert(names[i as int] == keys@[i as int]@);
        assert(names.contains(names[i as int]));
        assert(images(*a).contains_key(names[i as int]));
        let same: bool = match stores::map_get(a, keys[i].as_str()) {
            Some(x) => match stores::map_get(b, keys[i].as_str()) {
                Some(y) => *x == *y,
                None => false,
            },
            None => false,
        };
        if !same {
            return false;
        }
        i = i + 1;
    }
    proof {
        assert forall|k: Seq<char>| #[trigger] images(*a).contains_key(k) implies images(*b).contains_key(k) && images(
            *b,
        )[k] == images(*a)[k] by {
            assert(names.contains(k));
            let j = choose|j: int| 0 <= j < names.len() && names[j] == k;
            assert(images(*b).contains_key(names[j]));
        }
    }
    true
}

/// There are images on record, and the present ones are not those.
pub open spec fn rollout_due(last: Map<Seq<char>, Seq<char>>, current: Map<Seq<char>, Seq<char>>) -> bool {
    last != Map::<Seq<char>, Seq<char>>::empty() && current != last
}

/// Whether to roll out: there are images on record, and the present ones are not
/// those.
pub fn images_changed(last: &FxHashMap<String, String>, current: &FxHashMap<String, String>) -> (r: bool)
    ensures
        r == (images(*last) != Map::<Seq<char>, Seq<char>>::empty() && images(*current) != images(*last)),
        r == rollout_due(images(*last), images(*current)),
{
    let keys: Vec<String> = stores::map_keys(last);
    let ghost names = keys@.map_values(|s: String| s@);
    proof {
        if keys@.len() == 0 {
            assert(images(*last) =~= Map::<Seq<char>, Seq<char>>::empty()) by {
                assert forall|k: Seq<char>| !images(*last).contains_key(k) by {
                    assert(!names.contains(k));
                }
            }
        } else {
            assert(names[0] == keys@[0]@);
            assert(names.contains(names[0]));
            assert(images(*last).contains_key(names[0]));
        }
        if within(images(*current), images(*last)) && within(images(*last), images(*current)) {
            assert(images(*current) =~= images(*last));
        }
    }
    keys.len() > 0 && !(is_within(current, last) && is_within(last, current))
}

/// What is left of a pod that is to go.
#[derive(Debug)]
pub struct RetiredPod {
    pub uuid: u128,
    /// The endpoints to take away from behind their proxies.
    pub endpoints: Vec<Endpoint>,
    pub cleanup: PodCleanup,
}

/// What to take down of a pod.
#[derive(Debug)]
pub struct PodCleanup {
    /// The containers to stop.
    pub stop: Vec<String>,
    /// The network that is no longer used.
    pub network: Option<String>,
}

/// How many of some containers have a name that can be read, up to the first
/// that has not.
pub open spec fn readable(containers: Seq<ContainerMetadata>) -> nat
    decreases containers.len(),
{
    if containers.len() == 0 {
        0
    } else {
        let before = readable(containers.drop_last());
        if before == containers.len() - 1 && utils::parsed_name(containers.last().name@) is Ok {
            containers.len()
        } else {
            before
        }
    }
}

/// The network in which some containers ran, by the UUID in the name of the last.
pub open spec fn network_by_name(service: Seq<char>, containers: Seq<ContainerMetadata>) -> Seq<char> {
    if containers.len() == 0 {
        service + "__"@
    } else {
        naming::pod_network(service, utils::parsed_name(containers.last().name@)->Ok_0.uuid)
    }
}

/// `c` takes down the containers up to the first whose name cannot be read and,
/// where all can, the network.
pub open spec fn is_cleanup(c: PodCleanup, service: Seq<char>, containers: Seq<ContainerMetadata>) -> bool {
    &&& lifecycle::texts(c.stop@) == lifecycle::pod_names(containers.take(readable(containers) as int))
    &&& docker::optional_text(c.network) == (if readable(containers) == containers.len() {
        Some(network_by_name(service, containers))
    } else {
        None
    })
}

/// No more names can be read of some containers than there are.
proof fn lemma_readable(containers: Seq<ContainerMetadata>)
    ensures
        readable(containers) <= containers.len(),
    decreases containers.len(),
{
    if containers.len() > 0 {
        lemma_readable(containers.drop_last());
    }
}

/// Past a name that cannot be read, no more are.
proof fn lemma_unreadable(containers: Seq<ContainerMetadata>, i: int)
    requires
        0 <= i < containers.len(),
        readable(containers.take(i)) == i,
        utils::parsed_name(containers[i].name@) is Err,
    ensures
        readable(containers) == i,
    decreases containers.len(),
{
    let rest = containers.drop_last();
    if i == rest.len() {
        assert(containers.take(i) =~= rest);
    } else {
        assert(rest.take(i) =~= containers.take(i));
        lemma_unreadable(rest, i);
    }
}

/// What to take down of a pod.
pub fn cleanup_pod(metadata: &InstanceMetadata, service_name: &str) -> (r: PodCleanup)
    ensures
        is_cleanup(r, service_name@, metadata.containers@),
{
    let containers: &Vec<ContainerMetadata> = &metadata.containers;
    let mut stop: Vec<String> = Vec::new();
    let mut network: String = service_name.to_owned().concat("__");
    let mut i: usize = 0;
    assert(containers@.take(0) =~= Seq::empty());
    while i < containers.len()
        invariant
            i <= containers@.len(),
            containers@ == metadata.containers@,
            readable(containers@.take(i as int)) == i,
            stop@.len() == i,
            forall|j: int| 0 <= j < i ==> (#[trigger] stop@[j])@ == containers@[j].name@,
            network@ == network_by_name(service_name@, containers@.take(i as int)),
        decreases containers@.len() - i,
    {
        proof {
            assert(containers@.take(i + 1).drop_last() =~= containers@.take(i as int));
            assert(containers@.take(i + 1).last() == containers@[i as int]);
        }
        match utils::parse_container_name(containers[i].name.as_str()) {
            Ok(parts) => {
                network = naming::pod_network_name(service_name, parts.uuid);
                stop.push(containers[i].name.clone());
            },
            Err(_) => {
                proof {
                    lemma_unreadable(containers@, i as int);
                    assert(lifecycle::texts(stop@) =~= lifecycle::pod_names(containers@.take(i as int)));
                }
                return PodCleanup { stop, network: None };
            },
        }
        i = i + 1;
    }
    assert(containers@.take(i as int) =~= containers@);
    assert(lifecycle::texts(stop@) =~= lifecycle::pod_names(containers@));
    PodCleanup { stop, network: Some(network) }
}

/// The configuration of a rollout.
pub open spec fn rollout_config(config: ServiceConfig) -> RollingUpdateConfig {
    match config.rolling_update_config {
        Some(c) => c,
        None => default_rollout(),
    }
}

/// `p` is how the pod under `uuid` is taken away.
pub open spec fn is_retired(
    p: RetiredPod,
    service: Seq<char>,
    uuid: u128,
    pods: Map<u128, InstanceMetadata>,
) -> bool {
    &&& p.uuid == uuid
    &&& pods.contains_key(uuid)
    &&& proxy::listing(p.endpoints@) == proxy::endpoints(service, proxy::facts(pods[uuid].containers@))
    &&& is_cleanup(p.cleanup, service, pods[uuid].containers@)
}

/// `list` takes away all the pods, in the given order.
pub open spec fn retires_all(
    list: Seq<RetiredPod>,
    service: Seq<char>,
    order: Seq<u128>,
    pods: Map<u128, InstanceMetadata>,
) -> bool {
    &&& lifecycle::walks(order, pods)
    &&& list.len() == order.len()
    &&& forall|i: int| 0 <= i < order.len() ==> is_retired(#[trigger] list[i], service, order[i], pods)
}

/// `t` and `a` are the rollout over all the pods and its first action.
pub open spec fn begins(
    t: RolloutFacts,
    a: RolloutAction,
    service: Seq<char>,
    images: Map<Seq<char>, Seq<char>>,
    config: RollingUpdateConfig,
    pods: Map<u128, InstanceMetadata>,
) -> bool {
    exists|old_pods: Seq<RetiredPod>, order: Seq<u128>| #[trigger]
        retires_all(old_pods, service, order, pods) && (t, a) == rollout::first_facts(
            service,
            images,
            config,
            old_pods,
        ).beginning()
}

/// The rollout of new images over all the pods of a service, and the first thing
/// to do. Nothing where the service is not on record.
pub fn perform_rolling_update(
    store: &InstanceStore,
    service_name: &str,
    config: &ServiceConfig,
    new_image_hashes: FxHashMap<String, String>,
) -> (r: Option<(RolloutTask, RolloutAction)>)
    ensures
        ({
            let all = stores::entries(*store);
            let pods = proxy::pods_of(all, service_name@);
            &&& r is Some == all.contains_key(service_name@)
            &&& r matches Some(t) ==> {
                &&& begins(t.0@, t.1, service_name@, images(new_image_hashes), rollout_config(*config), pods)
                &&& t.0@.well_formed()
                &&& rollout::in_step(t.0@, pods)
                &&& t.0@.initial_pods() == pods.dom()
            }
        }),
{
    let pods: &HashMap<u128, InstanceMetadata> = match stores::map_get(store, service_name) {
        Some(p) => p,
        None => {
            return None;
        },
    };
    let update_config: RollingUpdateConfig = match config.rolling_update_config {
        Some(c) => c,
        None => RollingUpdateConfig::default(),
    };
    let keys: Vec<u128> = stores::id_keys(pods);
    let mut old_pods: Vec<RetiredPod> = Vec::new();
    let mut i: usize = 0;
    while i < keys.len()
        invariant
            i <= keys@.len(),
            forall|j: int| 0 <= j < keys@.len() ==> pods@.contains_key(#[trigger] keys@[j]),
            old_pods@.len() == i,
            forall|j: int| 0 <= j < i ==> is_retired(#[trigger] old_pods@[j], service_name@, keys@[j], pods@),
        decreases keys@.len() - i,
    {
        assert(pods@.contains_key(keys@[i as int]));
        if let Some(metadata) = pods.get(&keys[i]) {
            old_pods.push(
                RetiredPod {
                    uuid: keys[i],
                    endpoints: proxy::pod_endpoints(service_name, &metadata.containers),
                    cleanup: cleanup_pod(metadata, service_name),
                },
            );
        }
        i = i + 1;
    }
    proof {
        let all = proxy::pods_of(stores::entries(*store), service_name@);
        assert(all == pods@);
        assert(retires_all(old_pods@, service_name@, keys@, all));
        assert(rollout::uuids(old_pods@) =~= keys@);
        rollout::lemma_first(service_name@, images(new_image_hashes), update_config, old_pods@, all);
    }
    Some(RolloutTask::new(service_name.to_owned(), new_image_hashes, update_config, old_pods))
}

/// A pod that was started in a rollout.
#[derive(Debug)]
pub struct NewPod {
    pub uuid: u128,
    /// The endpoints to put behind the proxies.
    pub endpoints: Vec<Endpoint>,
    /// The containers to wait for.
    pub containers: Vec<String>,
}

/// The names of some started containers.
fn started_names(started: &Vec<StartedContainer>) -> (r: Vec<String>)
    ensures
        lifecycle::texts(r@) == started@.map_values(|s: StartedContainer| s.name@),
{
    let mut r: Vec<String> = Vec::new();
    let mut i: usize = 0;
    while i < started.len()
        invariant
            i <= started@.len(),
            r@.len() == i,
            forall|j: int| 0 <= j < i ==> (#[trigger] r@[j])@ == started@[j].name@,
        decreases started@.len() - i,
    {
        r.push(started[i].name.clone());
        i = i + 1;
    }
    assert(lifecycle::texts(r@) =~= started@.map_values(|s: StartedContainer| s.name@));
    r
}

/// `pod` is what a rollout goes on with once the containers were started.
pub open spec fn is_new_pod(pod: NewPod, service: Seq<char>, uuid: u128, started: Seq<StartedContainer>) -> bool {
    &&& pod.uuid == uuid
    &&& proxy::listing(pod.endpoints@) == scaling::started_endpoints(service, lifecycle::started_facts(started))
    &&& lifecycle::texts(pod.containers@) == started.map_values(|s: StartedContainer| s.name@)
}

/// The pod made of the containers is on record with its images, if its service
/// is; nothing else has changed.
pub open spec fn new_pod_recorded(
    before: InstanceStore,
    after: InstanceStore,
    service: Seq<char>,
    uuid: u128,
    now: u128,
    image_hash: Map<Seq<char>, Seq<char>>,
    started: Seq<StartedContainer>,
) -> bool {
    let (b, a) = (stores::entries(before), stores::entries(after));
    if b.contains_key(service) {
        exists|m: InstanceMetadata|
            {
                &&& #[trigger] m@ == lifecycle::instance_facts(
                    uuid,
                    now,
                    naming::pod_network(service, uuid),
                    image_hash,
                    lifecycle::started_facts(started),
                )
                &&& lifecycle::only_pods_changed(b, a, service, proxy::pods_of(b, service).insert(uuid, m))
            }
    } else {
        after == before
    }
}

/// Takes in a pod that was started in a rollout, under the UUID in the name of its
/// first container. It goes on record if its service still is. A pod without
/// containers is passed over.
pub fn record_new_pod(
    store: &mut InstanceStore,
    service_name: &str,
    now: u128,
    image_hash: FxHashMap<String, String>,
    started: Vec<StartedContainer>,
) -> (r: Result<Option<NewPod>, ContainerNameError>)
    ensures
        ({
            if started@.len() == 0 {
                r matches Ok(p) && p is None && *final(store) == *old(store)
            } else {
                match utils::parsed_name(started@[0].name@) {
                    Err(e) => r matches Err(x) && x == e && *final(store) == *old(store),
                    Ok(parts) => {
                        &&& r matches Ok(p) && p matches Some(pod) && is_new_pod(
                            pod,
                            service_name@,
                            parts.uuid,
                            started@,
                        )
                        &&& new_pod_recorded(
                            *old(store),
                            *final(store),
                            service_name@,
                            parts.uuid,
                            now,
                            images(image_hash),
                            started@,
                        )
                    },
                }
            }
        }),
{
    if started.len() == 0 {
        return Ok(None);
    }
    let uuid: u128 = match utils::parse_container_name(started[0].name.as_str()) {
        Ok(p) => p.uuid,
        Err(e) => {
            return Err(e);
        },
    };
    let pod: NewPod = NewPod {
        uuid,
        endpoints: scaling::endpoints_of(service_name, &started),
        containers: started_names(&started),
    };
    if stores::map_get(store, service_name).is_some() {
        let network: String = naming::pod_network_name(service_name, uuid);
        let metadata: InstanceMetadata = lifecycle::instance_from(uuid, now, network.as_str(), image_hash, started);
        assert(metadata@.uuid == uuid);
        lifecycle::insert_pod(store, service_name, metadata);
    }
    Ok(Some(pod))
}

/// What to do while new pods are awaited.
#[derive(Clone, Copy, PartialEq, Eq, Structural, Debug)]
pub enum ReadyStep {
    /// Take the old pods away.
    Proceed,
    /// Look at the new pods.
    Check,
    /// Look at the new pods again after so many nanoseconds.
    CheckAfter(u128),
}

/// What to do next, given how long the new pods have been awaited and, once they
/// were looked at, whether all of them answered.
pub open spec fn ready_step(waited: u128, timeout: u128, all_ready: Option<bool>) -> ReadyStep {
    match all_ready {
        Some(true) => ReadyStep::Proceed,
        Some(false) => ReadyStep::CheckAfter(READY_CHECK_INTERVAL),
        None => if waited < timeout {
            ReadyStep::Check
        } else {
            ReadyStep::Proceed
        },
    }
}

/// What to do next, given how long the new pods have been awaited and, once they
/// were looked at, whether all of them answered.
pub fn await_new_pods(waited: u128, timeout: u128, all_ready: Option<bool>) -> (r: ReadyStep)
    ensures
        r == ready_step(waited, timeout, all_ready),
{
    match all_ready {
        Some(true) => ReadyStep::Proceed,
        Some(false) => ReadyStep::CheckAfter(READY_CHECK_INTERVAL),
        None => {
            if waited < timeout {
                ReadyStep::Check
            } else {
                ReadyStep::Proceed
            }
        },
    }
}

/// A pod whose container names can all be read is taken down whole, with its network;
/// of another, the containers before the first name that cannot be read are stopped.
pub proof fn readable_pods_are_taken_down_whole(c: PodCleanup, service: Seq<char>, containers: Seq<ContainerMetadata>)
    requires
        is_cleanup(c, service, containers),
    ensures
        (forall|i: int| 0 <= i < containers.len() ==> utils::parsed_name((#[trigger] containers[i]).name@) is Ok) ==> {
            &&& c.stop@.len() == containers.len()
            &&& forall|i: int| 0 <= i < containers.len() ==> (#[trigger] c.stop@[i])@ == containers[i].name@
            &&& containers.len() > 0 ==> (c.network matches Some(n) && n@ == service + "__"@ + utils::hyphenated(
                utils::parsed_name(containers.last().name@)->Ok_0.uuid,
            ))
        },
        forall|k: int|
            0 <= k < containers.len() && utils::parsed_name((#[trigger] containers[k]).name@) is Err && (forall|i: int|
                0 <= i < k ==> utils::parsed_name((#[trigger] containers[i]).name@) is Ok) ==> c.stop@.len() == k
                && c.network is None,
        c.stop@.len() <= containers.len(),
        forall|i: int| 0 <= i < c.stop@.len() ==> (#[trigger] c.stop@[i])@ == containers[i].name@,
{
    lemma_readable(containers);
    let n = readable(containers) as int;
    let names = lifecycle::pod_names(containers.take(n));
    assert(lifecycle::texts(c.stop@).len() == c.stop@.len());
    assert(names.len() == n);
    assert forall|i: int| 0 <= i < c.stop@.len() implies (#[trigger] c.stop@[i])@ == containers[i].name@ by {
        assert(lifecycle::texts(c.stop@)[i] == c.stop@[i]@);
        assert(names[i] == containers.take(n)[i].name@);
    }
    if forall|i: int| 0 <= i < containers.len() ==> utils::parsed_name((#[trigger] containers[i]).name@) is Ok {
        lemma_all_readable(containers);
    }
    assert forall|k: int|
        0 <= k < containers.len() && utils::parsed_name((#[trigger] containers[k]).name@) is Err && (forall|i: int|
            0 <= i < k ==> utils::parsed_name((#[trigger] containers[i]).name@) is Ok) implies c.stop@.len() == k
        && c.network is None by {
        let front = containers.take(k);
        assert forall|i: int| 0 <= i < front.len() implies utils::parsed_name((#[trigger] front[i]).name@) is Ok by {
            assert(front[i] == containers[i]);
        }
        lemma_all_readable(front);
        lemma_unreadable(containers, k);
    }
}

/// Where every name can be read, all are.
proof fn lemma_all_readable(containers: Seq<ContainerMetadata>)
    requires
        forall|i: int| 0 <= i < containers.len() ==> utils::parsed_name((#[trigger] containers[i]).name@) is Ok,
    ensures
        readable(containers) == containers.len(),
    decreases containers.len(),
{
    if containers.len() > 0 {
        let rest = containers.drop_last();
        assert forall|i: int| 0 <= i < rest.len() implies utils::parsed_name((#[trigger] rest[i]).name@) is Ok by {
            assert(rest[i] == containers[i]);
        }
        lemma_all_readable(rest);
        assert(utils::parsed_name(containers[containers.len() - 1].name@) is Ok);
    }
}

/// New pods are looked at until all answer or the time is up, with a second between two
/// looks.
pub proof fn new_pods_are_looked_at_until_they_answer(waited: u128, timeout: u128)
    ensures
        ready_step(waited, timeout, Some(true)) == ReadyStep::Proceed,
        ready_step(waited, timeout, Some(false)) == ReadyStep::CheckAfter(1_000_000_000),
        waited < timeout ==> ready_step(waited, timeout, None) == ReadyStep::Check,
        waited >= timeout ==> ready_step(waited, timeout, None) == ReadyStep::Proceed,
{
}

/// A rollout goes by the definition; without a word there, one pod may be missing, one
/// be added, and new pods have five minutes.
pub proof fn rollouts_go_by_the_definition(config: ServiceConfig)
    ensures
        config.rolling_update_config matches Some(c) ==> rollout_config(config) == c,
        config.rolling_update_config is None ==> rollout_config(config).max_unavailable == 1 && rollout_config(
            config,
        ).max_surge == 1 && rollout_config(config).timeout == 300_000_000_000,
{
}

/// Images are those on record where they agree in every container.
pub proof fn images_agree_by_container(a: Map<Seq<char>, Seq<char>>, b: Map<Seq<char>, Seq<char>>)
    ensures
        within(a, b) && within(b, a) <==> a == b,
{
    if within(a, b) && within(b, a) {
        assert(a =~= b);
    }
}

/// A rollout is over every pod of the service: each old pod is taken from behind its
/// proxies with all its endpoints, and taken down.
pub proof fn rollouts_retire_every_old_pod(
    list: Seq<RetiredPod>,
    service: Seq<char>,
    order: Seq<u128>,
    pods: Map<u128, InstanceMetadata>,
    u: u128,
) -> (i: int)
    requires
        retires_all(list, service, order, pods),
        pods.contains_key(u),
    ensures
        0 <= i < list.len(),
        list[i].uuid == u,
        list.len() == pods.len(),
        proxy::listing(list[i].endpoints@) == proxy::endpoints(service, proxy::facts(pods[u].containers@)),
        is_cleanup(list[i].cleanup, service, pods[u].containers@),
{
    assert(order.to_set().contains(u));
    let i = choose|i: int| 0 <= i < order.len() && order[i] == u;
    assert(is_retired(list[i], service, order[i], pods));
    order.unique_seq_to_set();
    i
}

/// A rollout is due exactly where images are on record and some container has come, gone
/// or changed its image since; the first look starts none.
pub proof fn changed_images_are_rolled_out(
    last: Map<Seq<char>, Seq<char>>,
    current: Map<Seq<char>, Seq<char>>,
    name: Seq<char>,
)
    ensures
        !rollout_due(Map::empty(), current),
        !rollout_due(last, last),
        last.contains_key(name) && !current.contains_key(name) ==> rollout_due(last, current),
        last.contains_key(name) && current.contains_key(name) && last[name] != current[name] ==> rollout_due(
            last,
            current,
        ),
        (exists|n: Seq<char>| #[trigger] last.contains_key(n)) && !last.contains_key(name) && current.contains_key(name)
            ==> rollout_due(last, current),
        rollout_due(last, current) ==> exists|n: Seq<char>|
            {
                ||| #[trigger] last.contains_key(n) != current.contains_key(n)
                ||| last.contains_key(n) && last[n] != current[n]
            },
{
    if last.contains_key(name) {
        assert(last != Map::<Seq<char>, Seq<char>>::empty());
    }
    if exists|n: Seq<char>| #[trigger] last.contains_key(n) {
        let n = choose|n: Seq<char>| #[trigger] last.contains_key(n);
        assert(!Map::<Seq<char>, Seq<char>>::empty().contains_key(n));
    }
    if rollout_due(last, current) {
        if forall|n: Seq<char>|
            !{
                ||| #[trigger] last.contains_key(n) != current.contains_key(n)
                ||| last.contains_key(n) && last[n] != current[n]
            } {
            assert(last =~= current);
        }
    }
}

/// A pod of a rollout is recorded with the new images, in its own network, with all its
/// containers; the other pods of the service stay, and so do all other services. What is
/// gone on with is every container of it, and every endpoint.
pub proof fn new_pods_are_recorded_with_their_images(
    before: InstanceStore,
    after: InstanceStore,
    service: Seq<char>,
    uuid: u128,
    now: u128,
    image_hash: Map<Seq<char>, Seq<char>>,
    started: Seq<StartedContainer>,
    other: u128,
    i: int,
)
    requires
        new_pod_recorded(before, after, service, uuid, now, image_hash, started),
        stores::entries(before).contains_key(service),
        0 <= i < started.len(),
    ensures
        ({
            let (b, a) = (
                proxy::pods_of(stores::entries(before), service),
                proxy::pods_of(stores::entries(after), service),
            );
            let pod = a[uuid]@;
            &&& a.contains_key(uuid)
            &&& pod.uuid == uuid
            &&& pod.created_at == now
            &&& pod.image_hash == image_hash
            &&& pod.network == service + "__"@ + utils::hyphenated(uuid)
            &&& pod.containers.len() == started.len()
            &&& pod.containers[i].name == started[i].name@
            &&& pod.containers[i].ip_address == started[i].ip@
            &&& pod.containers[i].ports == started[i].ports@
            &&& pod.containers[i].status == "running"@
            &&& other != uuid ==> a.contains_key(other) == b.contains_key(other) && a[other] == b[other]
        }),
{
    let facts = lifecycle::started_facts(started);
    lifecycle::pods_are_recorded_as_they_were_started(
        uuid,
        now,
        naming::pod_network(service, uuid),
        image_hash,
        facts,
        i,
    );
    assert(facts[i] == started[i]@);
}

/// What a rollout goes on with for a new pod is its UUID, and every container of it.
pub proof fn new_pods_are_awaited_whole(
    pod: NewPod,
    service: Seq<char>,
    uuid: u128,
    started: Seq<StartedContainer>,
    i: int,
)
    requires
        is_new_pod(pod, service, uuid, started),
        0 <= i < started.len(),
    ensures
        pod.uuid == uuid,
        pod.containers@.len() == started.len(),
        pod.containers@[i]@ == started[i].name@,
{
    assert(lifecycle::texts(pod.containers@).len() == pod.containers@.len());
    assert(started.map_values(|s: StartedContainer| s.name@).len() == started.len());
    assert(lifecycle::texts(pod.containers@)[i] == pod.containers@[i]@);
}

} // verus!
