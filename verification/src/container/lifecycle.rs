//! The pods on record: how they come and go.

use crate::config::events::TaskNames;
use crate::config::utils;
use crate::config::ServiceConfig;
use crate::container::naming;
use crate::container::runtimes::start::StartedContainer;
use crate::container::runtimes::start::StartedFacts;
use crate::container::stats;
use crate::container::stats::ServiceStats;
use crate::container::stats::ServiceStatsStore;
use crate::container::stats::StatsHistory;
use crate::container::Container;
use crate::container::ContainerFacts;
use crate::container::ContainerMetadata;
use crate::container::InstanceFacts;
use crate::container::InstanceMetadata;
use crate::container::InstanceStore;
use crate::container::StatsEntry;
use crate::proxy;
use crate::proxy::Backends;
use crate::proxy::Endpoint;
use crate::proxy::EndpointFacts;
use crate::stores;
use crate::text;
use rustc_hash::FxHashMap;
use rustc_hash::FxHashSet;
use std::collections::HashMap;
use vstd::prelude::*;
use vstd::string::*;

verus! {

/// No pods yet.
pub fn new_instance_store() -> (r: InstanceStore)
    ensures
        forall|s: Seq<char>| !stores::entries(r).contains_key(s),
{
    stores::map_new()
}

/// What is kept about a container that was started into a network.
pub open spec fn container_facts(network: Seq<char>, s: StartedFacts) -> ContainerFacts {
    ContainerFacts { name: s.name, network, ip_address: s.ip, ports: s.ports, status: "running"@ }
}

/// What is kept about a pod that was started.
pub open spec fn instance_facts(
    uuid: u128,
    created_at: u128,
    network: Seq<char>,
    image_hash: Map<Seq<char>, Seq<char>>,
    started: Seq<StartedFacts>,
) -> InstanceFacts {
    InstanceFacts {
        uuid,
        created_at,
        network,
        containers: started.map_values(|s: StartedFacts| container_facts(network, s)),
        image_hash,
    }
}

/// The started containers, as they read.
pub open spec fn started_facts(started: Seq<StartedContainer>) -> Seq<StartedFacts> {
    started.map_values(|s: StartedContainer| s@)
}

/// The record of a pod that was started.
pub fn instance_from(
    uuid: u128,
    created_at: u128,
    network: &str,
    image_hash: FxHashMap<String, String>,
    started: Vec<StartedContainer>,
) -> (r: InstanceMetadata)
    ensures
        r@ == instance_facts(
            uuid,
            created_at,
            network@,
            stores::entries(image_hash).map_values(|h: String| h@),
            started_facts(started@),
        ),
{
    let mut containers: Vec<ContainerMetadata> = Vec::new();
    let ghost all = started_facts(started@);
    let ghost wanted = all.map_values(|s: StartedFacts| container_facts(network@, s));
    let mut i: usize = 0;
    while i < started.len()
        invariant
            i <= started@.len(),
            all == started_facts(started@),
            wanted == all.map_values(|s: StartedFacts| container_facts(network@, s)),
            containers@.len() == i,
            forall|j: int| 0 <= j < i ==> (#[trigger] containers@[j])@ == wanted[j],
        decreases started@.len() - i,
    {
        let s: &StartedContainer = &started[i];
        let mut ports: Vec<crate::container::ContainerPortMetadata> = Vec::new();
        let mut p: usize = 0;
        while p < s.ports.len()
            invariant
                p <= s.ports@.len(),
                ports@ == s.ports@.take(p as int),
            decreases s.ports@.len() - p,
        {
            ports.push(s.ports[p]);
            assert(ports@ =~= s.ports@.take(p + 1));
            p = p + 1;
        }
        assert(ports@ =~= s.ports@);
        let c: ContainerMetadata = ContainerMetadata {
            name: s.name.clone(),
            network: network.to_owned(),
            ip_address: s.ip.clone(),
            ports,
            status: "running".to_owned(),
        };
        assert(all[i as int] == s@);
        assert(c@ == wanted[i as int]);
        containers.push(c);
        i = i + 1;
    }
    let r: InstanceMetadata = InstanceMetadata { uuid, created_at, network: network.to_owned(), containers, image_hash };
    assert(r@.containers =~= wanted);
    r
}

/// The image of each container, by name, as far as it is known; of several
/// containers with one name, the last known counts.
pub open spec fn hashes_of(containers: Seq<Container>, digests: Seq<Option<String>>) -> Map<Seq<char>, Seq<char>>
    decreases digests.len(),
{
    if digests.len() == 0 {
        Map::empty()
    } else {
        let rest = hashes_of(containers, digests.drop_last());
        match digests.last() {
            Some(d) => rest.insert(containers[digests.len() - 1].name@, d@),
            None => rest,
        }
    }
}

/// The image of each container, given the digests that could be found.
pub fn image_hashes(containers: &Vec<Container>, digests: &Vec<Option<String>>) -> (r: FxHashMap<String, String>)
    requires
        digests@.len() <= containers@.len(),
    ensures
        stores::entries(r).map_values(|h: String| h@) == hashes_of(containers@, digests@),
{
    let mut r: FxHashMap<String, String> = stores::map_new();
    let mut i: usize = 0;
    assert(digests@.take(0) =~= Seq::empty());
    assert(stores::entries(r).map_values(|h: String| h@) =~= Map::<Seq<char>, Seq<char>>::empty());
    while i < digests.len()
        invariant
            i <= digests@.len() <= containers@.len(),
            stores::entries(r).map_values(|h: String| h@) == hashes_of(containers@, digests@.take(i as int)),
        decreases digests@.len() - i,
    {
        let ghost before = stores::entries(r);
        proof {
            assert(digests@.take(i + 1).drop_last() =~= digests@.take(i as int));
            assert(digests@.take(i + 1).last() == digests@[i as int]);
        }
        if let Some(d) = &digests[i] {
            let _ = stores::map_insert(&mut r, containers[i].name.clone(), d.clone());
            assert(stores::entries(r).map_values(|h: String| h@) =~= before.map_values(|h: String| h@).insert(
                containers@[i as int].name@,
                d@,
            ));
        }
        i = i + 1;
    }
    assert(digests@.take(i as int) =~= digests@);
    r
}

/// How many pods a service has.
pub fn pod_count(store: &InstanceStore, service_name: &str) -> (r: usize)
    ensures
        r == proxy::pods_of(stores::entries(*store), service_name@).len(),
{
    match stores::map_get(store, service_name) {
        Some(i) => i.len(),
        None => 0,
    }
}

/// How many pods there are too few.
pub open spec fn lacking(current: nat, min: nat) -> nat {
    if current < min {
        (min - current) as nat
    } else {
        0
    }
}

/// How many pods a service lacks.
pub fn missing_pods(store: &InstanceStore, service_name: &str, config: &ServiceConfig) -> (r: usize)
    ensures
        ({
            let current = proxy::pods_of(stores::entries(*store), service_name@).len();
            r == (if current < config.instance_count.min {
                config.instance_count.min - current
            } else {
                0
            })
        }),
        r == lacking(
            proxy::pods_of(stores::entries(*store), service_name@).len(),
            config.instance_count.min as nat,
        ),
{
    let current: usize = pod_count(store, service_name);
    let target: usize = config.instance_count.min as usize;
    if current < target {
        target - current
    } else {
        0
    }
}

/// `after` is `before` but for the pods of one service, which are `pods`.
pub open spec fn only_pods_changed(
    before: Map<Seq<char>, HashMap<u128, InstanceMetadata>>,
    after: Map<Seq<char>, HashMap<u128, InstanceMetadata>>,
    service: Seq<char>,
    pods: Map<u128, InstanceMetadata>,
) -> bool {
    &&& proxy::pods_of(after, service) == pods
    &&& forall|s: Seq<char>| s != service ==> after.contains_key(s) == #[trigger] before.contains_key(s)
    &&& forall|s: Seq<char>| s != service ==> #[trigger] after[s] == before[s]
}

/// Puts a pod on record.
pub fn insert_pod(store: &mut InstanceStore, service_name: &str, pod: InstanceMetadata)
    ensures
        only_pods_changed(
            stores::entries(*old(store)),
            stores::entries(*final(store)),
            service_name@,
            proxy::pods_of(stores::entries(*old(store)), service_name@).insert(pod.uuid, pod),
        ),
        stores::entries(*final(store)).contains_key(service_name@),
{
    let mut pods: HashMap<u128, InstanceMetadata> = match stores::map_remove(store, service_name) {
        Some(p) => p,
        None => HashMap::new(),
    };
    let _ = pods.insert(pod.uuid, pod);
    let _ = stores::map_insert(store, service_name.to_owned(), pods);
}

/// Takes a pod off the record.
pub fn remove_pod(store: &mut InstanceStore, service_name: &str, uuid: u128)
    ensures
        only_pods_changed(
            stores::entries(*old(store)),
            stores::entries(*final(store)),
            service_name@,
            proxy::pods_of(stores::entries(*old(store)), service_name@).remove(uuid),
        ),
        stores::entries(*final(store)).contains_key(service_name@) == stores::entries(*old(store)).contains_key(
            service_name@,
        ),
{
    let ghost before = stores::entries(*store);
    match stores::map_remove(store, service_name) {
        Some(p) => {
            let mut pods: HashMap<u128, InstanceMetadata> = p;
            let _ = pods.remove(&uuid);
            let _ = stores::map_insert(store, service_name.to_owned(), pods);
        },
        None => {
            assert(proxy::pods_of(before, service_name@).remove(uuid) =~= proxy::pods_of(before, service_name@));
        },
    }
}

/// Puts a pod on record that was started to make up the minimum, under the given
/// UUID.
pub fn record_managed_pod(
    store: &mut InstanceStore,
    service_name: &str,
    uuid: u128,
    now: u128,
    image_hash: FxHashMap<String, String>,
    started: Vec<StartedContainer>,
)
    ensures
        exists|pod: InstanceMetadata|
            {
                &&& #[trigger] pod@ == instance_facts(
                    uuid,
                    now,
                    naming::pod_network(service_name@, uuid),
                    stores::entries(image_hash).map_values(|h: String| h@),
                    started_facts(started@),
                )
                &&& only_pods_changed(
                    stores::entries(*old(store)),
                    stores::entries(*final(store)),
                    service_name@,
                    proxy::pods_of(stores::entries(*old(store)), service_name@).insert(uuid, pod),
                )
            },
{
    let network: String = naming::pod_network_name(service_name, uuid);
    let pod: InstanceMetadata = instance_from(uuid, now, network.as_str(), image_hash, started);
    assert(pod@.uuid == uuid);
    insert_pod(store, service_name, pod);
}

/// The UUID in the name of the first of some containers; nothing where there is
/// none, or its name cannot be read.
pub open spec fn named_uuid(started: Seq<StartedContainer>) -> Option<u128> {
    if started.len() == 0 {
        None
    } else {
        match utils::parsed_name(started[0].name@) {
            Ok(parts) => Some(parts.uuid),
            Err(_) => None,
        }
    }
}

/// The UUID in the name of the first of some containers.
pub fn uuid_in_names(started: &Vec<StartedContainer>) -> (r: Option<u128>)
    ensures
        r == named_uuid(started@),
{
    if started.len() == 0 {
        return None;
    }
    match utils::parse_container_name(started[0].name.as_str()) {
        Ok(parts) => Some(parts.uuid),
        Err(_) => None,
    }
}

/// Puts a pod on record that was started to make up the minimum, under the UUID
/// in the names of its containers; under a new one where none can be read.
pub fn manage(
    store: &mut InstanceStore,
    service_name: &str,
    now: u128,
    image_hash: FxHashMap<String, String>,
    started: Vec<StartedContainer>,
) -> (r: u128)
    ensures
        match named_uuid(started@) {
            Some(u) => r == u,
            None => utils::random_uuid(r),
        },
        exists|pod: InstanceMetadata|
            {
                &&& #[trigger] pod@ == instance_facts(
                    r,
                    now,
                    naming::pod_network(service_name@, r),
                    stores::entries(image_hash).map_values(|h: String| h@),
                    started_facts(started@),
                )
                &&& only_pods_changed(
                    stores::entries(*old(store)),
                    stores::entries(*final(store)),
                    service_name@,
                    proxy::pods_of(stores::entries(*old(store)), service_name@).insert(r, pod),
                )
            },
{
    let uuid: u128 = match uuid_in_names(&started) {
        Some(u) => u,
        None => utils::new_uuid(),
    };
    record_managed_pod(store, service_name, uuid, now, image_hash, started);
    uuid
}

/// The names of the containers of some pods, pod by pod.
pub open spec fn container_names(pods: Map<u128, InstanceMetadata>, order: Seq<u128>) -> Seq<Seq<char>>
    decreases order.len(),
{
    if order.len() == 0 {
        Seq::empty()
    } else {
        container_names(pods, order.drop_last()) + pod_names(pods[order.last()].containers@)
    }
}

/// The names of some containers.
pub open spec fn pod_names(containers: Seq<ContainerMetadata>) -> Seq<Seq<char>> {
    containers.map_values(|c: ContainerMetadata| c.name@)
}

/// The endpoints of some pods, pod by pod.
pub open spec fn pods_endpoints(
    service: Seq<char>,
    pods: Map<u128, InstanceMetadata>,
    order: Seq<u128>,
) -> Seq<EndpointFacts>
    decreases order.len(),
{
    if order.len() == 0 {
        Seq::empty()
    } else {
        pods_endpoints(service, pods, order.drop_last()) + proxy::endpoints(
            service,
            proxy::facts(pods[order.last()].containers@),
        )
    }
}

/// `order` goes through the pods, each once.
pub open spec fn walks(order: Seq<u128>, pods: Map<u128, InstanceMetadata>) -> bool {
    order.no_duplicates() && order.to_set() == pods.dom()
}

/// Some texts.
pub open spec fn texts(v: Seq<String>) -> Seq<Seq<char>> {
    v.map_values(|s: String| s@)
}

/// What is left to do for a service that was taken off the record.
#[derive(Debug)]
pub struct CleanUp {
    /// The endpoints to take away from behind their proxies.
    pub endpoints: Vec<Endpoint>,
    /// The containers to stop.
    pub stop: Vec<String>,
}

/// The readings of the named containers are gone, and no others.
pub open spec fn readings_forgotten(
    before: Map<Seq<char>, StatsEntry>,
    after: Map<Seq<char>, StatsEntry>,
    names: Seq<Seq<char>>,
) -> bool {
    forall|n: Seq<char>|
        {
            &&& #[trigger] after.contains_key(n) == (before.contains_key(n) && !names.contains(n))
            &&& after.contains_key(n) ==> after[n] == before[n]
        }
}

/// Both cover the same services, and differ at most in the one.
pub open spec fn same_elsewhere(
    before: Map<Seq<char>, ServiceStats>,
    after: Map<Seq<char>, ServiceStats>,
    service: Seq<char>,
) -> bool {
    &&& after.dom() == before.dom()
    &&& forall|s: Seq<char>| s != service ==> #[trigger] after[s] == before[s]
}

/// The name of one more container is in a list or the one on top.
proof fn lemma_pushed(names: Seq<Seq<char>>, name: Seq<char>, n: Seq<char>)
    ensures
        names.push(name).contains(n) == (names.contains(n) || n == name),
{
    let more = names.push(name);
    assert(more[names.len() as int] == name);
    if names.contains(n) {
        let j = choose|j: int| 0 <= j < names.len() && names[j] == n;
        assert(more[j] == n);
    }
    if more.contains(n) && n != name {
        let j = choose|j: int| 0 <= j < more.len() && more[j] == n;
        assert(names[j] == n);
    }
}

/// Takes a service off the record: its scaling task, its pods, the readings of
/// its containers and of itself. The result says what is left to do; nothing where the service is
/// not on record.
pub fn clean_up(
    tasks: &mut TaskNames,
    store: &mut InstanceStore,
    history: &mut StatsHistory,
    services: &mut ServiceStatsStore,
    service_name: &str,
) -> (r: Option<CleanUp>)
    ensures
        ({
            let before = stores::entries(*old(store));
            let pods = proxy::pods_of(before, service_name@);
            &&& stores::members(*final(tasks)) == stores::members(*old(tasks)).remove(service_name@)
            &&& stores::entries(*final(store)) == before.remove(service_name@)
            &&& r is Some == before.contains_key(service_name@)
            &&& r matches Some(c) ==> {
                &&& exists|order: Seq<u128>|
                    {
                        &&& #[trigger] walks(order, pods)
                        &&& texts(c.stop@) == container_names(pods, order)
                        &&& proxy::listing(c.endpoints@) == pods_endpoints(service_name@, pods, order)
                    }
                &&& readings_forgotten(
                    stats::last_readings(*old(history)),
                    stats::last_readings(*final(history)),
                    texts(c.stop@),
                )
                &&& stores::entries(*final(services)) == stores::entries(*old(services)).remove(service_name@)
            }
            &&& r is None ==> *final(history) == *old(history) && *final(services) == *old(services)
        }),
{
    let ghost before = stores::entries(*store);
    let ghost pods = proxy::pods_of(before, service_name@);
    let _ = stores::set_remove(tasks, service_name);
    let instances: HashMap<u128, InstanceMetadata> = match stores::map_remove(store, service_name) {
        Some(i) => i,
        None => {
            return None;
        },
    };
    let keys: Vec<u128> = stores::id_keys(&instances);
    let mut stop: Vec<String> = Vec::new();
    let mut endpoints: Vec<Endpoint> = Vec::new();
    let mut i: usize = 0;
    proof {
        assert(keys@.take(0) =~= Seq::empty());
        assert(texts(stop@) =~= Seq::empty());
        assert(proxy::listing(endpoints@) =~= Seq::empty());
    }
    while i < keys.len()
        invariant
            i <= keys@.len(),
            pods == instances@,
            forall|j: int| 0 <= j < keys@.len() ==> pods.contains_key(#[trigger] keys@[j]),
            texts(stop@) == container_names(pods, keys@.take(i as int)),
            proxy::listing(endpoints@) == pods_endpoints(service_name@, pods, keys@.take(i as int)),
            readings_forgotten(stats::last_readings(*old(history)), stats::last_readings(*history), texts(stop@)),
            same_elsewhere(stores::entries(*old(services)), stores::entries(*services), service_name@),
        decreases keys@.len() - i,
    {
        let key: u128 = keys[i];
        proof {
            assert(pods.contains_key(keys@[i as int]));
            assert(keys@.take(i + 1).drop_last() =~= keys@.take(i as int));
            assert(keys@.take(i + 1).last() == key);
        }
        if let Some(pod) = instances.get(&key) {
            let ghost so_far = proxy::listing(endpoints@);
            let mut more: Vec<Endpoint> = proxy::pod_endpoints(service_name, &pod.containers);
            let ghost extra = proxy::listing(more@);
            endpoints.append(&mut more);
            assert(proxy::listing(endpoints@) =~= so_far + extra);
            let ghost names_before = texts(stop@);
            let mut c: usize = 0;
            let ghost all = pod_names(pod.containers@);
            assert(names_before + all.take(0) =~= names_before);
            while c < pod.containers.len()
                invariant
                    c <= pod.containers@.len(),
                    all == pod_names(pod.containers@),
                    texts(stop@) == names_before + all.take(c as int),
                    readings_forgotten(stats::last_readings(*old(history)), stats::last_readings(*history), texts(stop@)),
                    same_elsewhere(stores::entries(*old(services)), stores::entries(*services), service_name@),
                decreases pod.containers@.len() - c,
            {
                let ghost earlier = texts(stop@);
                let ghost kept = stats::last_readings(*history);
                let name: &String = &pod.containers[c].name;
                stats::remove_container_stats(history, services, service_name, name.as_str());
                stop.push(name.clone());
                proof {
                    assert(texts(stop@) =~= earlier.push(name@));
                    assert(all[c as int] == name@);
                    assert(names_before + all.take(c + 1) =~= (names_before + all.take(c as int)).push(name@));
                    let first = stats::last_readings(*old(history));
                    let now = stats::last_readings(*history);
                    assert forall|n: Seq<char>|
                        {
                            &&& #[trigger] now.contains_key(n) == (first.contains_key(n) && !texts(stop@).contains(n))
                            &&& now.contains_key(n) ==> now[n] == first[n]
                        } by {
                        lemma_pushed(earlier, name@, n);
                        assert(kept.contains_key(n) == (first.contains_key(n) && !earlier.contains(n)));
                    }
                }
                c = c + 1;
            }
            assert(all.take(c as int) =~= all);
        }
        i = i + 1;
    }
    proof {
        assert(keys@.take(i as int) =~= keys@);
        assert(walks(keys@, pods));
    }
    let _ = stores::map_remove(services, service_name);
    assert(stores::entries(*services) =~= stores::entries(*old(services)).remove(service_name@));
    Some(CleanUp { endpoints, stop })
}

/// The key is that of a proxy of the service.
pub open spec fn is_key_of(service: Seq<char>, key: Seq<char>) -> bool {
    exists|p: u16| key == #[trigger] naming::proxy_key(service, p)
}

/// Whether a key is that of a proxy of the service.
pub fn keys_proxy_of(service_name: &str, key: &str) -> (r: bool)
    ensures
        r == is_key_of(service_name@, key@),
{
    let head: Vec<char> = text::chars_of(service_name);
    let all: Vec<char> = text::chars_of(key);
    proof {
        reveal_strlit("__");
    }
    if all.len() < 2 || all.len() - 2 < head.len() {
        return false;
    }
    let rest: &str = key.substring_char(head.len() + 2, all.len());
    assert forall|q: u16| key@ == #[trigger] naming::proxy_key(service_name@, q) implies text::unsigned_value(
        rest@,
        65535,
    ) == Some(q as nat) by {
        assert(rest@ =~= text::decimal(q as nat));
        text::reading_a_numeral_gives_its_number(q as nat, 65535);
    }
    match text::parse_unsigned(rest, 65535) {
        Some(n) => text::same(naming::proxy_key_of(service_name, n as u16).as_str(), key),
        None => false,
    }
}

/// The proxies of the service are gone, and no others.
pub open spec fn proxies_removed(
    before: Map<Seq<char>, FxHashSet<String>>,
    after: Map<Seq<char>, FxHashSet<String>>,
    service: Seq<char>,
) -> bool {
    forall|k: Seq<char>|
        {
            &&& #[trigger] after.contains_key(k) == (before.contains_key(k) && !is_key_of(service, k))
            &&& after.contains_key(k) ==> after[k] == before[k]
        }
}

/// Takes away the proxies of a service.
fn remove_proxies(backends: &mut Backends, service_name: &str)
    ensures
        proxies_removed(stores::entries(*old(backends)), stores::entries(*final(backends)), service_name@),
{
    let keys: Vec<String> = stores::map_keys(backends);
    let ghost names = keys@.map_values(|s: String| s@);
    let ghost before = stores::entries(*backends);
    let mut i: usize = 0;
    while i < keys.len()
        invariant
            i <= keys@.len(),
            names == keys@.map_values(|s: String| s@),
            before == stores::entries(*old(backends)),
            forall|k: Seq<char>| before.contains_key(k) == names.contains(k),
            forall|k: Seq<char>|
                {
                    &&& #[trigger] stores::entries(*backends).contains_key(k) == (before.contains_key(k) && !(is_key_of(
                        service_name@,
                        k,
                    ) && names.take(i as int).contains(k)))
                    &&& stores::entries(*backends).contains_key(k) ==> stores::entries(*backends)[k] == before[k]
                },
        decreases keys@.len() - i,
    {
        let ghost between = stores::entries(*backends);
        if keys_proxy_of(service_name, keys[i].as_str()) {
            let _ = stores::map_remove(backends, keys[i].as_str());
        }
        proof {
            let after = stores::entries(*backends);
            assert(names[i as int] == keys@[i as int]@);
            assert(names.take(i + 1) =~= names.take(i as int).push(names[i as int]));
            assert forall|k: Seq<char>|
                {
                    &&& #[trigger] after.contains_key(k) == (before.contains_key(k) && !(is_key_of(service_name@, k)
                        && names.take(i + 1).contains(k)))
                    &&& after.contains_key(k) ==> after[k] == before[k]
                } by {
                lemma_pushed(names.take(i as int), names[i as int], k);
                assert(between.contains_key(k) == (before.contains_key(k) && !(is_key_of(service_name@, k)
                    && names.take(i as int).contains(k))));
            }
        }
        i = i + 1;
    }
    assert(names.take(i as int) =~= names);
}

/// Stops a service: takes it off the record, with its scaling task, its proxies,
/// the readings of its containers and its own. The result names every container of every pod,
/// to be stopped.
pub fn stop_service(
    tasks: &mut TaskNames,
    store: &mut InstanceStore,
    backends: &mut Backends,
    history: &mut StatsHistory,
    services: &mut ServiceStatsStore,
    service_name: &str,
) -> (r: Vec<String>)
    ensures
        ({
            let pods = proxy::pods_of(stores::entries(*old(store)), service_name@);
            &&& stores::members(*final(tasks)) == stores::members(*old(tasks)).remove(service_name@)
            &&& stores::entries(*final(store)) == stores::entries(*old(store)).remove(service_name@)
            &&& proxies_removed(stores::entries(*old(backends)), stores::entries(*final(backends)), service_name@)
            &&& exists|order: Seq<u128>|
                {
                    &&& #[trigger] walks(order, pods)
                    &&& texts(r@) == container_names(pods, order)
                }
            &&& readings_forgotten(
                stats::last_readings(*old(history)),
                stats::last_readings(*final(history)),
                texts(r@),
            )
            &&& stores::entries(*final(services)) == stores::entries(*old(services)).remove(service_name@)
        }),
{
    let ghost pods = proxy::pods_of(stores::entries(*store), service_name@);
    remove_proxies(backends, service_name);
    let left: Option<CleanUp> = clean_up(tasks, store, history, services, service_name);
    let _ = stores::map_remove(services, service_name);
    assert(stores::entries(*services) =~= stores::entries(*old(services)).remove(service_name@));
    match left {
        Some(c) => c.stop,
        None => {
            let r: Vec<String> = Vec::new();
            proof {
                let order = Seq::<u128>::empty();
                assert(order.to_set() =~= pods.dom());
                assert(walks(order, pods));
                assert(texts(r@) =~= container_names(pods, order));
            }
            r
        },
    }
}

/// The endpoints of a pod are among those of all pods.
proof fn lemma_pod_listed(
    service: Seq<char>,
    pods: Map<u128, InstanceMetadata>,
    order: Seq<u128>,
    i: int,
    key: Seq<char>,
    address: Seq<char>,
)
    requires
        0 <= i < order.len(),
        proxy::has_endpoint(proxy::endpoints(service, proxy::facts(pods[order[i]].containers@)), key, address),
    ensures
        proxy::has_endpoint(pods_endpoints(service, pods, order), key, address),
    decreases order.len(),
{
    let wanted = EndpointFacts { proxy_key: key, address };
    let rest = pods_endpoints(service, pods, order.drop_last());
    let last = proxy::endpoints(service, proxy::facts(pods[order.last()].containers@));
    let all = pods_endpoints(service, pods, order);
    assert(all == rest + last);
    if i < order.len() - 1 {
        lemma_pod_listed(service, pods, order.drop_last(), i, key, address);
        let j = choose|j: int| 0 <= j < rest.len() && rest[j] == wanted;
        assert(all[j] == wanted);
    } else {
        let j = choose|j: int| 0 <= j < last.len() && last[j] == wanted;
        assert(all[rest.len() + j] == wanted);
    }
}

/// Once the endpoints of a service that was cleaned up are taken away, none of its
/// containers is behind the proxy of any of its ports.
pub proof fn cleaned_up_pods_leave_their_proxies(
    before: Map<Seq<char>, FxHashSet<String>>,
    after: Map<Seq<char>, FxHashSet<String>>,
    service: Seq<char>,
    pods: Map<u128, InstanceMetadata>,
    order: Seq<u128>,
    u: u128,
    c: int,
    p: int,
    node_port: u16,
)
    requires
        walks(order, pods),
        proxy::removed(before, after, pods_endpoints(service, pods, order)),
        pods.contains_key(u),
        0 <= c < pods[u].containers@.len(),
        0 <= p < pods[u].containers@[c].ports@.len(),
        pods[u].containers@[c].ports@[p].node_port == Some(node_port),
    ensures
        !proxy::behind(after, naming::proxy_key(service, node_port)).contains(
            naming::address(pods[u].containers@[c].ip_address@, pods[u].containers@[c].ports@[p].port),
        ),
{
    let containers = proxy::facts(pods[u].containers@);
    let key = naming::proxy_key(service, node_port);
    let address = naming::address(containers[c].ip_address, containers[c].ports[p].port);
    assert(containers[c] == pods[u].containers@[c]@);
    assert(order.to_set().contains(u));
    let i = choose|i: int| 0 <= i < order.len() && order[i] == u;
    proxy::lemma_endpoint_listed(service, containers, c, p, node_port);
    lemma_pod_listed(service, pods, order, i, key, address);
    if !before.contains_key(key) {
        assert(!after.contains_key(key));
    } else {
        assert(!proxy::behind(after, key).contains(address));
    }
}

/// No endpoint is behind a proxy of a service that was stopped.
pub proof fn stopped_services_have_no_backends(
    before: Map<Seq<char>, FxHashSet<String>>,
    after: Map<Seq<char>, FxHashSet<String>>,
    service: Seq<char>,
    port: u16,
)
    requires
        proxies_removed(before, after, service),
    ensures
        proxy::behind(after, naming::proxy_key(service, port)) == Set::<Seq<char>>::empty(),
{
    assert(!after.contains_key(naming::proxy_key(service, port)));
}

/// A service without the separator in its name loses no proxy when another one
/// is stopped.
pub proof fn other_services_keep_their_proxies(
    before: Map<Seq<char>, FxHashSet<String>>,
    after: Map<Seq<char>, FxHashSet<String>>,
    stopped: Seq<char>,
    other: Seq<char>,
    port: u16,
)
    requires
        utils::separable(stopped),
        utils::separable(other),
        stopped != other,
        proxies_removed(before, after, stopped),
    ensures
        proxy::behind(after, naming::proxy_key(other, port)) == proxy::behind(before, naming::proxy_key(other, port)),
{
    let k = naming::proxy_key(other, port);
    assert(!is_key_of(stopped, k)) by {
        if is_key_of(stopped, k) {
            let p = choose|p: u16| k == #[trigger] naming::proxy_key(stopped, p);
            naming::proxy_keys_tell_service_and_port(stopped, p, other, port);
        }
    }
    assert(after.contains_key(k) == before.contains_key(k));
}

/// A pod that was put on record under a new UUID and taken off again leaves no
/// trace among the pods of its service.
pub proof fn removal_undoes_insertion(pods: Map<u128, InstanceMetadata>, pod: InstanceMetadata)
    requires
        !pods.contains_key(pod.uuid),
    ensures
        pods.insert(pod.uuid, pod).remove(pod.uuid) == pods,
{
    assert(pods.insert(pod.uuid, pod).remove(pod.uuid) =~= pods);
}

/// Once the lacking pods are on record under new UUIDs, the service has its
/// minimum.
pub proof fn lacking_pods_make_up_the_minimum(
    pods: Map<u128, InstanceMetadata>,
    more: Map<u128, InstanceMetadata>,
    min: nat,
)
    requires
        pods.len() <= min,
        more.len() == min - pods.len(),
        pods.dom().finite(),
        more.dom().finite(),
        pods.dom().disjoint(more.dom()),
    ensures
        pods.union_prefer_right(more).len() == min,
{
    assert(pods.union_prefer_right(more).dom() =~= pods.dom().union(more.dom()));
    vstd::set_lib::lemma_set_disjoint_lens(pods.dom(), more.dom());
}

/// A pod is recorded with what was started: under its UUID, with its time, network and
/// images, and each container in its order with its name, its address and its ports,
/// running in the network of the pod.
pub proof fn pods_are_recorded_as_they_were_started(
    uuid: u128,
    created_at: u128,
    network: Seq<char>,
    image_hash: Map<Seq<char>, Seq<char>>,
    started: Seq<StartedFacts>,
    i: int,
)
    requires
        0 <= i < started.len(),
    ensures
        ({
            let pod = instance_facts(uuid, created_at, network, image_hash, started);
            &&& pod.uuid == uuid
            &&& pod.created_at == created_at
            &&& pod.network == network
            &&& pod.image_hash == image_hash
            &&& pod.containers.len() == started.len()
            &&& pod.containers[i].name == started[i].name
            &&& pod.containers[i].ip_address == started[i].ip
            &&& pod.containers[i].ports == started[i].ports
            &&& pod.containers[i].network == network
            &&& pod.containers[i].status == "running"@
        }),
{
}

/// The image of a container is the last one known under its name, and nothing where
/// none is known.
pub proof fn images_are_known_by_container(containers: Seq<Container>, digests: Seq<Option<String>>, i: int)
    requires
        digests.len() <= containers.len(),
        0 <= i < digests.len(),
        digests[i] is Some,
        forall|j: int|
            i < j < digests.len() && (#[trigger] digests[j]) is Some ==> containers[j].name@ != containers[i].name@,
    ensures
        hashes_of(containers, digests).contains_key(containers[i].name@),
        hashes_of(containers, digests)[containers[i].name@] == digests[i]->0@,
    decreases digests.len(),
{
    let n = digests.len() - 1;
    if i < n {
        let rest = digests.drop_last();
        assert(rest[i] == digests[i]);
        assert forall|j: int| i < j < rest.len() && (#[trigger] rest[j]) is Some implies containers[j].name@
            != containers[i].name@ by {
            assert(rest[j] == digests[j]);
        }
        images_are_known_by_container(containers, rest, i);
        if digests[n] is Some {
            assert(containers[n].name@ != containers[i].name@);
        }
    }
}

/// Images are known of those containers alone of which a digest is.
pub proof fn unknown_images_are_left_out(containers: Seq<Container>, digests: Seq<Option<String>>, name: Seq<char>)
    requires
        digests.len() <= containers.len(),
        forall|j: int| 0 <= j < digests.len() && (#[trigger] digests[j]) is Some ==> containers[j].name@ != name,
    ensures
        !hashes_of(containers, digests).contains_key(name),
    decreases digests.len(),
{
    if digests.len() > 0 {
        let rest = digests.drop_last();
        let n = digests.len() - 1;
        assert forall|j: int| 0 <= j < rest.len() && (#[trigger] rest[j]) is Some implies containers[j].name@ != name by {
            assert(rest[j] == digests[j]);
        }
        unknown_images_are_left_out(containers, rest, name);
        if digests[n] is Some {
            assert(containers[n].name@ != name);
        }
    }
}

/// A change to the pods of one service leaves every other service as it was.
pub proof fn other_services_keep_their_pods(
    before: Map<Seq<char>, HashMap<u128, InstanceMetadata>>,
    after: Map<Seq<char>, HashMap<u128, InstanceMetadata>>,
    service: Seq<char>,
    pods: Map<u128, InstanceMetadata>,
    other: Seq<char>,
)
    requires
        only_pods_changed(before, after, service, pods),
        other != service,
    ensures
        after.contains_key(other) == before.contains_key(other),
        before.contains_key(other) ==> after[other] == before[other],
        after.contains_key(service) ==> after[service]@ == pods,
        !after.contains_key(service) ==> pods == Map::<u128, InstanceMetadata>::empty(),
{
    assert(after.contains_key(other) == before.contains_key(other));
    assert(after[other] == before[other]);
}

/// The UUID of a started pod is the one in the name of its first container.
pub proof fn pods_go_by_their_first_container(started: Seq<StartedContainer>, u: u128)
    ensures
        named_uuid(started) == Some(u) <==> started.len() > 0 && (utils::parsed_name(started[0].name@) matches Ok(p)
            && p.uuid == u),
{
}

/// The names of the containers of all pods are those of the containers of each pod, and
/// no others; as many as the pods have containers.
pub proof fn every_container_is_named(pods: Map<u128, InstanceMetadata>, order: Seq<u128>, name: Seq<char>)
    requires
        walks(order, pods),
    ensures
        container_names(pods, order).contains(name) <==> exists|u: u128, c: int|
            pods.contains_key(u) && 0 <= c < pods[u].containers@.len() && (#[trigger] pods[u].containers@[c]).name@
                == name,
{
    if container_names(pods, order).contains(name) {
        let (i, c) = lemma_named_by(pods, order, name);
        assert(order.to_set().contains(order[i]));
        assert(pods[order[i]].containers@[c].name@ == name);
    }
    if exists|u: u128, c: int|
        pods.contains_key(u) && 0 <= c < pods[u].containers@.len() && (#[trigger] pods[u].containers@[c]).name@
            == name {
        let (u, c) = choose|u: u128, c: int|
            pods.contains_key(u) && 0 <= c < pods[u].containers@.len() && (#[trigger] pods[u].containers@[c]).name@
                == name;
        assert(order.to_set().contains(u));
        let i = choose|i: int| 0 <= i < order.len() && order[i] == u;
        lemma_names_listed(pods, order, i, c);
    }
}

/// The name of a container is among those of all pods.
proof fn lemma_names_listed(pods: Map<u128, InstanceMetadata>, order: Seq<u128>, i: int, c: int)
    requires
        0 <= i < order.len(),
        0 <= c < pods[order[i]].containers@.len(),
    ensures
        container_names(pods, order).contains(pods[order[i]].containers@[c].name@),
    decreases order.len(),
{
    let name = pods[order[i]].containers@[c].name@;
    let before = container_names(pods, order.drop_last());
    let last = pod_names(pods[order.last()].containers@);
    let all = container_names(pods, order);
    if i < order.len() - 1 {
        lemma_names_listed(pods, order.drop_last(), i, c);
        let j = choose|j: int| 0 <= j < before.len() && before[j] == name;
        assert(all[j] == name);
    } else {
        assert(last[c] == name);
        assert(all[before.len() + c] == name);
    }
}

/// A name among those of all pods is that of a container of one of them.
proof fn lemma_named_by(pods: Map<u128, InstanceMetadata>, order: Seq<u128>, name: Seq<char>) -> (at: (int, int))
    requires
        container_names(pods, order).contains(name),
    ensures
        0 <= at.0 < order.len(),
        0 <= at.1 < pods[order[at.0]].containers@.len(),
        pods[order[at.0]].containers@[at.1].name@ == name,
    decreases order.len(),
{
    let before = container_names(pods, order.drop_last());
    let last = pod_names(pods[order.last()].containers@);
    let all = container_names(pods, order);
    let j = choose|j: int| 0 <= j < all.len() && all[j] == name;
    if j < before.len() {
        assert(before[j] == name);
        let at = lemma_named_by(pods, order.drop_last(), name);
        assert(order.drop_last()[at.0] == order[at.0]);
        at
    } else {
        assert(last[j - before.len()] == name);
        (order.len() - 1, j - before.len())
    }
}

/// Forgetting the readings of some containers forgets theirs, and keeps all others.
pub proof fn other_readings_are_kept(
    before: Map<Seq<char>, StatsEntry>,
    after: Map<Seq<char>, StatsEntry>,
    names: Seq<Seq<char>>,
    n: Seq<char>,
)
    requires
        readings_forgotten(before, after, names),
    ensures
        names.contains(n) ==> !after.contains_key(n),
        !names.contains(n) ==> after.contains_key(n) == before.contains_key(n),
        !names.contains(n) && before.contains_key(n) ==> after[n] == before[n],
{
    assert(after.contains_key(n) == (before.contains_key(n) && !names.contains(n)));
}

/// Exactly the keys of a stopped service, its name with a double underscore and a port,
/// are gone from the proxies.
pub proof fn stopping_takes_the_proxies_of_the_service(
    before: Map<Seq<char>, FxHashSet<String>>,
    after: Map<Seq<char>, FxHashSet<String>>,
    service: Seq<char>,
    port: u16,
    key: Seq<char>,
)
    requires
        proxies_removed(before, after, service),
    ensures
        !after.contains_key(service + "__"@ + text::decimal(port as nat)),
        (forall|p: u16| key != service + "__"@ + #[trigger] text::decimal(p as nat)) ==> after.contains_key(key)
            == before.contains_key(key) && (before.contains_key(key) ==> after[key] == before[key]),
{
    let own = naming::proxy_key(service, port);
    assert(is_key_of(service, own));
    assert(after.contains_key(own) == (before.contains_key(own) && !is_key_of(service, own)));
    if forall|p: u16| key != service + "__"@ + #[trigger] text::decimal(p as nat) {
        assert(!is_key_of(service, key)) by {
            if is_key_of(service, key) {
                let p = choose|p: u16| key == #[trigger] naming::proxy_key(service, p);
                assert(key == service + "__"@ + text::decimal(p as nat));
            }
        }
        assert(after.contains_key(key) == (before.contains_key(key) && !is_key_of(service, key)));
    }
}

/// With the pods that it lacks a service has its minimum, and never more for it.
pub proof fn lacking_pods_fill_up_the_minimum(current: nat, min: nat)
    ensures
        current + lacking(current, min) >= min,
        lacking(current, min) > 0 ==> current + lacking(current, min) == min,
        lacking(current, min) == 0 <==> current >= min,
{
}

} // verus!
