//! The status of every service, drawn from a cache of the pods on record.
//!
//! Behind the proxies, containers are looked for here by their port on the local
//! host.

use crate::config::store;
use crate::config::store::ConfigStore;
use crate::config::store::StoredConfig;
use crate::config::utils;
use crate::config::ServiceConfig;
use crate::container::lifecycle;
use crate::container::naming;
use crate::container::stats;
use crate::container::stats::ServiceStats;
use crate::container::stats::ServiceStatsStore;
use crate::container::ContainerMetadata;
use crate::container::ContainerPortMetadata;
use crate::container::ContainerStats;
use crate::container::InstanceMetadata;
use crate::container::InstanceStore;
use crate::api;
use crate::level::Level;
use crate::proxy;
use crate::proxy::Backends;
use crate::stores;
use crate::text;
use rustc_hash::FxHashSet;
use std::collections::HashMap;
use std::sync::Arc;
use vstd::prelude::*;
use vstd::string::*;

verus! {

/// The time between two updates of the cache, in nanoseconds.
pub const CACHE_UPDATE_INTERVAL: u128 = 15_000_000_000;

/// The time that an update of the cache may take, in nanoseconds.
pub const CACHE_UPDATE_TIMEOUT: u128 = 5_000_000_000;

/// A port of a container.
#[derive(Clone, Copy, PartialEq, Eq, Structural, Debug)]
pub struct PortStatus {
    pub port: u16,
    pub node_port: Option<u16>,
    pub healthy: bool,
}

/// A container.
#[derive(Debug)]
pub struct ContainerStatus {
    pub name: String,
    pub ip_address: String,
    pub ports: Vec<PortStatus>,
    pub status: String,
    pub cpu_percentage: Option<Level>,
    pub cpu_percentage_relative: Option<Level>,
    pub memory_usage: Option<u64>,
    pub memory_limit: Option<u64>,
}

/// A pod.
#[derive(Debug)]
pub struct PodStatus {
    pub uuid: u128,
    pub containers: Vec<ContainerStatus>,
}

/// A service.
#[derive(Debug)]
pub struct ServiceStatus {
    pub service_name: String,
    pub service_ports: Vec<u16>,
    pub pods: Vec<PodStatus>,
}

/// The port answers on the local host behind its proxy; a port without one is
/// looked for behind the proxy on port zero.
pub open spec fn answers(
    backends: Map<Seq<char>, FxHashSet<String>>,
    service: Seq<char>,
    p: ContainerPortMetadata,
) -> bool {
    let node_port = match p.node_port {
        Some(n) => n,
        None => 0,
    };
    proxy::behind(backends, naming::proxy_key(service, node_port)).contains(
        naming::address("127.0.0.1"@, p.port),
    )
}

/// Some port answers.
pub open spec fn some_answer(
    backends: Map<Seq<char>, FxHashSet<String>>,
    service: Seq<char>,
    ports: Seq<ContainerPortMetadata>,
) -> bool {
    exists|i: int| 0 <= i < ports.len() && answers(backends, service, #[trigger] ports[i])
}

/// The status of a port.
pub open spec fn port_status(
    backends: Map<Seq<char>, FxHashSet<String>>,
    service: Seq<char>,
    p: ContainerPortMetadata,
) -> PortStatus {
    PortStatus { port: p.port, node_port: p.node_port, healthy: answers(backends, service, p) }
}

/// `s` is the status of the container.
pub open spec fn is_container_status(
    s: ContainerStatus,
    service: Seq<char>,
    c: ContainerMetadata,
    backends: Map<Seq<char>, FxHashSet<String>>,
    services: Map<Seq<char>, ServiceStats>,
) -> bool {
    let kept = stats::kept_stats(services, service, c.name@);
    &&& s.name@ == c.name@
    &&& s.ip_address@ == c.ip_address@
    &&& s.ports@ == c.ports@.map_values(|p: ContainerPortMetadata| port_status(backends, service, p))
    &&& s.status@ == (if some_answer(backends, service, c.ports@) {
        "running"@
    } else {
        "unknown"@
    })
    &&& s.cpu_percentage == (match kept {
        Some(k) => Some(k.cpu_percentage),
        None => None,
    })
    &&& s.cpu_percentage_relative == (match kept {
        Some(k) => Some(k.cpu_percentage_relative),
        None => None,
    })
    &&& s.memory_usage == (match kept {
        Some(k) => Some(k.memory_usage),
        None => None,
    })
    &&& s.memory_limit == (match kept {
        Some(k) => Some(k.memory_limit),
        None => None,
    })
}

/// `s` is the status of the pod.
pub open spec fn is_pod_status(
    s: PodStatus,
    service: Seq<char>,
    uuid: u128,
    pods: Map<u128, InstanceMetadata>,
    backends: Map<Seq<char>, FxHashSet<String>>,
    services: Map<Seq<char>, ServiceStats>,
) -> bool {
    &&& s.uuid == uuid
    &&& pods.contains_key(uuid)
    &&& s.containers@.len() == pods[uuid].containers@.len()
    &&& forall|i: int|
        0 <= i < s.containers@.len() ==> is_container_status(
            #[trigger] s.containers@[i],
            service,
            pods[uuid].containers@[i],
            backends,
            services,
        )
}

/// `list` is the status of all the pods, in the given order.
pub open spec fn are_pod_statuses(
    list: Seq<PodStatus>,
    service: Seq<char>,
    order: Seq<u128>,
    pods: Map<u128, InstanceMetadata>,
    backends: Map<Seq<char>, FxHashSet<String>>,
    services: Map<Seq<char>, ServiceStats>,
) -> bool {
    &&& lifecycle::walks(order, pods)
    &&& list.len() == order.len()
    &&& forall|i: int|
        0 <= i < list.len() ==> is_pod_status(#[trigger] list[i], service, order[i], pods, backends, services)
}

/// `s` is the status of the service, under the given definition.
pub open spec fn is_service_status(
    s: ServiceStatus,
    service: Seq<char>,
    config: ServiceConfig,
    pods: Map<u128, InstanceMetadata>,
    backends: Map<Seq<char>, FxHashSet<String>>,
    services: Map<Seq<char>, ServiceStats>,
) -> bool {
    &&& s.service_name@ == service
    &&& s.service_ports@ == api::status::service_ports(config.spec.containers@)
    &&& exists|order: Seq<u128>| #[trigger] are_pod_statuses(s.pods@, service, order, pods, backends, services)
}

/// Whether a port answers.
fn port_answers(backends: &Backends, service_name: &str, p: &ContainerPortMetadata) -> (r: bool)
    ensures
        r == answers(stores::entries(*backends), service_name@, *p),
{
    let node_port: u16 = match p.node_port {
        Some(n) => n,
        None => 0,
    };
    let key: String = naming::proxy_key_of(service_name, node_port);
    match stores::map_get(backends, key.as_str()) {
        Some(set) => {
            let address: String = naming::address_of("127.0.0.1", p.port);
            stores::set_contains(set, address.as_str())
        },
        None => false,
    }
}

/// The status of a container.
pub fn container_status(
    service_name: &str,
    container: &ContainerMetadata,
    backends: &Backends,
    services: &ServiceStatsStore,
) -> (r: ContainerStatus)
    ensures
        is_container_status(
            r,
            service_name@,
            *container,
            stores::entries(*backends),
            stores::entries(*services),
        ),
{
    let ghost b = stores::entries(*backends);
    let kept: Option<Arc<ContainerStats>> = match stores::map_get(services, service_name) {
        Some(s) => s.get_container_stats(container.name.as_str()),
        None => None,
    };
    let (cpu_percentage, cpu_percentage_relative, memory_usage, memory_limit): (
        Option<Level>,
        Option<Level>,
        Option<u64>,
        Option<u64>,
    ) = match &kept {
        Some(k) => (
            Some(k.cpu_percentage),
            Some(k.cpu_percentage_relative),
            Some(k.memory_usage),
            Some(k.memory_limit),
        ),
        None => (None, None, None, None),
    };
    let mut ports: Vec<PortStatus> = Vec::new();
    let mut running: bool = false;
    let mut i: usize = 0;
    while i < container.ports.len()
        invariant
            i <= container.ports@.len(),
            b == stores::entries(*backends),
            ports@.len() == i,
            forall|j: int|
                0 <= j < i ==> #[trigger] ports@[j] == port_status(b, service_name@, container.ports@[j]),
            running == exists|j: int| 0 <= j < i && answers(b, service_name@, #[trigger] container.ports@[j]),
        decreases container.ports@.len() - i,
    {
        let p: ContainerPortMetadata = container.ports[i];
        let healthy: bool = port_answers(backends, service_name, &p);
        ports.push(PortStatus { port: p.port, node_port: p.node_port, healthy });
        if healthy {
            assert(answers(b, service_name@, container.ports@[i as int]));
            running = true;
        }
        i = i + 1;
    }
    assert(ports@ =~= container.ports@.map_values(|p: ContainerPortMetadata| port_status(b, service_name@, p)));
    let status: String = if running {
        "running".to_owned()
    } else {
        "unknown".to_owned()
    };
    ContainerStatus {
        name: container.name.clone(),
        ip_address: container.ip_address.clone(),
        ports,
        status,
        cpu_percentage,
        cpu_percentage_relative,
        memory_usage,
        memory_limit,
    }
}

/// The status of a service under a definition.
pub fn service_status(
    service_name: &str,
    config: &ServiceConfig,
    pods: &HashMap<u128, InstanceMetadata>,
    backends: &Backends,
    services: &ServiceStatsStore,
) -> (r: ServiceStatus)
    ensures
        is_service_status(
            r,
            service_name@,
            *config,
            pods@,
            stores::entries(*backends),
            stores::entries(*services),
        ),
{
    let ghost b = stores::entries(*backends);
    let ghost s = stores::entries(*services);
    let (service_ports, _) = api::status::ports_and_urls(config);
    let keys: Vec<u128> = stores::id_keys(pods);
    let mut list: Vec<PodStatus> = Vec::new();
    let mut i: usize = 0;
    while i < keys.len()
        invariant
            i <= keys@.len(),
            b == stores::entries(*backends),
            s == stores::entries(*services),
            forall|j: int| 0 <= j < keys@.len() ==> pods@.contains_key(#[trigger] keys@[j]),
            list@.len() == i,
            forall|j: int|
                0 <= j < list@.len() ==> is_pod_status(#[trigger] list@[j], service_name@, keys@[j], pods@, b, s),
        decreases keys@.len() - i,
    {
        assert(pods@.contains_key(keys@[i as int]));
        if let Some(pod) = pods.get(&keys[i]) {
            let mut containers: Vec<ContainerStatus> = Vec::new();
            let mut c: usize = 0;
            while c < pod.containers.len()
                invariant
                    c <= pod.containers@.len(),
                    b == stores::entries(*backends),
                    s == stores::entries(*services),
                    containers@.len() == c,
                    forall|j: int|
                        0 <= j < c ==> is_container_status(
                            #[trigger] containers@[j],
                            service_name@,
                            pod.containers@[j],
                            b,
                            s,
                        ),
                decreases pod.containers@.len() - c,
            {
                containers.push(container_status(service_name, &pod.containers[c], backends, services));
                c = c + 1;
            }
            list.push(PodStatus { uuid: keys[i], containers });
        }
        i = i + 1;
    }
    let r: ServiceStatus = ServiceStatus { service_name: service_name.to_owned(), service_ports, pods: list };
    proof {
        assert(lifecycle::walks(keys@, pods@));
        assert(are_pod_statuses(r.pods@, service_name@, keys@, pods@, b, s));
    }
    r
}

/// Some definition of the service gives the status.
pub open spec fn reported(
    s: ServiceStatus,
    name: Seq<char>,
    configs: Map<Seq<char>, Arc<StoredConfig>>,
    instances: Map<Seq<char>, HashMap<u128, InstanceMetadata>>,
    backends: Map<Seq<char>, FxHashSet<String>>,
    services: Map<Seq<char>, ServiceStats>,
) -> bool {
    exists|k: Seq<char>| #[trigger]
        utils::defines(configs, k, name) && is_service_status(
            s,
            name,
            configs[k].config,
            proxy::pods_of(instances, name),
            backends,
            services,
        )
}

/// The status of every service that has pods in the cache and a definition, each
/// once.
pub fn get_status(
    cache: &InstanceStore,
    configs: &ConfigStore,
    backends: &Backends,
    services: &ServiceStatsStore,
) -> (r: Vec<ServiceStatus>)
    ensures
        ({
            let held = store::stored(*configs);
            let instances = stores::entries(*cache);
            let b = stores::entries(*backends);
            let s = stores::entries(*services);
            &&& forall|i: int|
                0 <= i < r@.len() ==> api::status::reportable((#[trigger] r@[i]).service_name@, held, instances)
                    && reported(r@[i], r@[i].service_name@, held, instances, b, s)
            &&& forall|i: int, j: int|
                0 <= i < j < r@.len() ==> (#[trigger] r@[i]).service_name@ != (#[trigger] r@[j]).service_name@
            &&& forall|n: Seq<char>| #[trigger]
                api::status::reportable(n, held, instances) ==> exists|i: int|
                    0 <= i < r@.len() && (#[trigger] r@[i]).service_name@ == n
        }),
{
    let ghost held = store::stored(*configs);
    let ghost instances = stores::entries(*cache);
    let ghost b = stores::entries(*backends);
    let ghost s = stores::entries(*services);
    let names: Vec<String> = stores::map_keys(cache);
    let ghost texts = names@.map_values(|s: String| s@);
    let mut r: Vec<ServiceStatus> = Vec::new();
    let mut i: usize = 0;
    while i < names.len()
        invariant
            i <= names@.len(),
            held == store::stored(*configs),
            instances == stores::entries(*cache),
            b == stores::entries(*backends),
            s == stores::entries(*services),
            texts == names@.map_values(|s: String| s@),
            texts.no_duplicates(),
            forall|k: Seq<char>| instances.contains_key(k) == texts.contains(k),
            forall|j: int|
                0 <= j < r@.len() ==> api::status::reportable((#[trigger] r@[j]).service_name@, held, instances)
                    && reported(r@[j], r@[j].service_name@, held, instances, b, s),
            forall|j: int|
                0 <= j < r@.len() ==> texts.take(i as int).contains((#[trigger] r@[j]).service_name@),
            forall|a: int, c: int|
                0 <= a < c < r@.len() ==> (#[trigger] r@[a]).service_name@ != (#[trigger] r@[c]).service_name@,
            forall|j: int|
                0 <= j < i && api::status::reportable(#[trigger] texts[j], held, instances) ==> exists|k: int|
                    0 <= k < r@.len() && (#[trigger] r@[k]).service_name@ == texts[j],
        decreases names@.len() - i,
    {
        let ghost before = r@;
        let name: &str = names[i].as_str();
        proof {
            assert(texts[i as int] == name@);
            assert(texts.contains(texts[i as int]));
            assert(!texts.take(i as int).contains(name@)) by {
                if texts.take(i as int).contains(name@) {
                    let j = choose|j: int| 0 <= j < i && texts[j] == name@;
                    assert(texts[j] == texts[i as int]);
                }
            }
            let (x, y) = (texts.take(i as int), texts.take(i + 1));
            assert(y[i as int] == name@);
            assert forall|n: Seq<char>| x.contains(n) implies y.contains(n) by {
                let j = choose|j: int| 0 <= j < x.len() && x[j] == n;
                assert(y[j] == n);
            }
        }
        if let Some(found) = utils::get_config_by_service(configs, name) {
            if let Some(pods) = stores::map_get(cache, name) {
                let status: ServiceStatus = service_status(name, &found.config, pods, backends, services);
                proof {
                    assert(proxy::pods_of(instances, name@) == pods@);
                    let k = choose|k: Seq<char>| #[trigger] utils::defines(held, k, name@) && held[k] == found;
                    assert(utils::defines(held, k, name@));
                    assert(reported(status, name@, held, instances, b, s));
                }
                r.push(status);
                proof {
                    assert(r@[before.len() as int].service_name@ == name@);
                    assert forall|j: int|
                        0 <= j < i + 1 && api::status::reportable(#[trigger] texts[j], held, instances) implies exists|
                        k: int,
                    |
                        0 <= k < r@.len() && (#[trigger] r@[k]).service_name@ == texts[j] by {
                        if j < i {
                            let k = choose|k: int|
                                0 <= k < before.len() && (#[trigger] before[k]).service_name@ == texts[j];
                            assert(r@[k] == before[k]);
                        } else {
                            assert(r@[before.len() as int].service_name@ == texts[j]);
                        }
                    }
                }
            }
        }
        i = i + 1;
    }
    proof {
        assert forall|n: Seq<char>| #[trigger] api::status::reportable(n, held, instances) implies exists|k: int|
            0 <= k < r@.len() && (#[trigger] r@[k]).service_name@ == n by {
            assert(texts.contains(n));
            let j = choose|j: int| 0 <= j < texts.len() && texts[j] == n;
            assert(api::status::reportable(texts[j], held, instances));
        }
    }
    r
}

/// Both hold the same pods.
pub open spec fn same_pods(a: Map<u128, InstanceMetadata>, b: Map<u128, InstanceMetadata>) -> bool {
    &&& a.dom() == b.dom()
    &&& forall|u: u128| #[trigger] a.contains_key(u) ==> a[u]@ == b[u]@
}

/// The record of a pod, copied.
fn copy_instance(m: &InstanceMetadata) -> (r: InstanceMetadata)
    ensures
        r@ == m@,
{
    let mut containers: Vec<ContainerMetadata> = Vec::new();
    let mut i: usize = 0;
    while i < m.containers.len()
        invariant
            i <= m.containers@.len(),
            containers@.len() == i,
            forall|j: int| 0 <= j < i ==> (#[trigger] containers@[j])@ == m.containers@[j]@,
        decreases m.containers@.len() - i,
    {
        let c: &ContainerMetadata = &m.containers[i];
        let mut ports: Vec<ContainerPortMetadata> = Vec::new();
        let mut p: usize = 0;
        while p < c.ports.len()
            invariant
                p <= c.ports@.len(),
                ports@ == c.ports@.take(p as int),
            decreases c.ports@.len() - p,
        {
            ports.push(c.ports[p]);
            assert(ports@ =~= c.ports@.take(p + 1));
            p = p + 1;
        }
        assert(ports@ =~= c.ports@);
        containers.push(
            ContainerMetadata {
                name: c.name.clone(),
                network: c.network.clone(),
                ip_address: c.ip_address.clone(),
                ports,
                status: c.status.clone(),
            },
        );
        i = i + 1;
    }
    let r: InstanceMetadata = InstanceMetadata {
        uuid: m.uuid,
        created_at: m.created_at,
        network: m.network.clone(),
        containers,
        image_hash: stores::copy_texts(&m.image_hash),
    };
    assert(r@.containers =~= m@.containers);
    r
}

/// The pods of a service, copied.
fn copy_pods(pods: &HashMap<u128, InstanceMetadata>) -> (r: HashMap<u128, InstanceMetadata>)
    ensures
        same_pods(r@, pods@),
{
    let keys: Vec<u128> = stores::id_keys(pods);
    let mut r: HashMap<u128, InstanceMetadata> = HashMap::new();
    let mut i: usize = 0;
    while i < keys.len()
        invariant
            i <= keys@.len(),
            forall|j: int| 0 <= j < keys@.len() ==> pods@.contains_key(#[trigger] keys@[j]),
            forall|u: u128| #[trigger] r@.contains_key(u) ==> pods@.contains_key(u) && r@[u]@ == pods@[u]@,
            forall|j: int| 0 <= j < i ==> r@.contains_key(#[trigger] keys@[j]),
        decreases keys@.len() - i,
    {
        assert(pods@.contains_key(keys@[i as int]));
        if let Some(m) = pods.get(&keys[i]) {
            let _ = r.insert(keys[i], copy_instance(m));
        }
        i = i + 1;
    }
    proof {
        assert forall|u: u128| pods@.contains_key(u) implies r@.contains_key(u) by {
            assert(keys@.to_set().contains(u));
            let j = choose|j: int| 0 <= j < keys@.len() && keys@[j] == u;
            assert(r@.contains_key(keys@[j]));
        }
        assert(r@.dom() =~= pods@.dom());
    }
    r
}

/// A fresh copy of the pods on record.
pub fn update_instance_store_cache(instance_store: &InstanceStore) -> (r: InstanceStore)
    ensures
        ({
            let from = stores::entries(*instance_store);
            let to = stores::entries(r);
            &&& to.dom() == from.dom()
            &&& forall|s: Seq<char>| #[trigger] from.contains_key(s) ==> same_pods(to[s]@, from[s]@)
        }),
{
    let keys: Vec<String> = stores::map_keys(instance_store);
    let ghost names = keys@.map_values(|s: String| s@);
    let ghost from = stores::entries(*instance_store);
    let mut r: InstanceStore = stores::map_new();
    let mut i: usize = 0;
    while i < keys.len()
        invariant
            i <= keys@.len(),
            from == stores::entries(*instance_store),
            names == keys@.map_values(|s: String| s@),
            forall|k: Seq<char>| from.contains_key(k) == names.contains(k),
            forall|k: Seq<char>| #[trigger]
                stores::entries(r).contains_key(k) ==> from.contains_key(k) && same_pods(
                    stores::entries(r)[k]@,
                    from[k]@,
                ),
            forall|j: int| 0 <= j < i ==> stores::entries(r).contains_key(#[trigger] names[j]),
        decreases keys@.len() - i,
    {
        proof {
            assert(names[i as int] == keys@[i as int]@);
            assert(names.contains(names[i as int]));
        }
        if let Some(pods) = stores::map_get(instance_store, keys[i].as_str()) {
            let _ = stores::map_insert(&mut r, keys[i].clone(), copy_pods(pods));
        }
        i = i + 1;
    }
    proof {
        let to = stores::entries(r);
        assert forall|k: Seq<char>| from.contains_key(k) implies to.contains_key(k) by {
            assert(names.contains(k));
            let j = choose|j: int| 0 <= j < names.len() && names[j] == k;
            assert(to.contains_key(names[j]));
        }
        assert(to.dom() =~= from.dom());
    }
    r
}

/// A port is healthy exactly while its port on the local host is behind the proxy of the
/// service on its node port; the report shows its container port and node port.
pub proof fn ports_answer_on_the_local_host(
    backends: Map<Seq<char>, FxHashSet<String>>,
    service: Seq<char>,
    p: ContainerPortMetadata,
)
    ensures
        ({
            let s = port_status(backends, service, p);
            let node = match p.node_port {
                Some(n) => n as nat,
                None => 0,
            };
            let key = service + "__"@ + text::decimal(node);
            &&& s.port == p.port
            &&& s.node_port == p.node_port
            &&& s.healthy == (backends.contains_key(key) && stores::members(backends[key]).contains(
                "127.0.0.1"@ + ":"@ + text::decimal(p.port as nat),
            ))
        }),
{
}

/// The report on a container shows its record, the state of each port, its last
/// readings, and that it runs exactly where one of its ports is healthy.
pub proof fn reports_show_the_record(
    s: ContainerStatus,
    service: Seq<char>,
    c: ContainerMetadata,
    backends: Map<Seq<char>, FxHashSet<String>>,
    services: Map<Seq<char>, ServiceStats>,
)
    requires
        is_container_status(s, service, c, backends, services),
    ensures
        s.name@ == c.name@,
        s.ip_address@ == c.ip_address@,
        s.ports@.len() == c.ports@.len(),
        forall|i: int| 0 <= i < c.ports@.len() ==> #[trigger] s.ports@[i] == port_status(backends, service, c.ports@[i]),
        s.status@ == "running"@ <==> exists|i: int| 0 <= i < s.ports@.len() && (#[trigger] s.ports@[i]).healthy,
        s.status@ == "running"@ || s.status@ == "unknown"@,
        ({
            let known = services.contains_key(service) && services[service]@.contains_key(c.name@);
            let kept = services[service]@[c.name@];
            &&& known ==> s.cpu_percentage == Some(kept.cpu_percentage) && s.cpu_percentage_relative == Some(
                kept.cpu_percentage_relative,
            ) && s.memory_usage == Some(kept.memory_usage) && s.memory_limit == Some(kept.memory_limit)
            &&& !known ==> s.cpu_percentage is None && s.cpu_percentage_relative is None && s.memory_usage is None
                && s.memory_limit is None
        }),
{
    reveal_strlit("running");
    reveal_strlit("unknown");
    assert("running"@[0] == 'r' && "unknown"@[0] == 'u');
    assert forall|i: int| 0 <= i < c.ports@.len() implies #[trigger] s.ports@[i] == port_status(
        backends,
        service,
        c.ports@[i],
    ) by {}
    if some_answer(backends, service, c.ports@) {
        let i = choose|i: int| 0 <= i < c.ports@.len() && answers(backends, service, #[trigger] c.ports@[i]);
        assert(s.ports@[i].healthy);
    }
    if exists|i: int| 0 <= i < s.ports@.len() && (#[trigger] s.ports@[i]).healthy {
        let i = choose|i: int| 0 <= i < s.ports@.len() && (#[trigger] s.ports@[i]).healthy;
        assert(answers(backends, service, c.ports@[i]));
    }
}

} // verus!
