//! The status of every service.

use crate::config::store;
use crate::config::store::ConfigStore;
use crate::config::store::StoredConfig;
use crate::config::utils;
use crate::config::ServiceConfig;
use crate::container::health;
use crate::container::health::ContainerHealthState;
use crate::container::health::HealthStore;
use crate::container::lifecycle;
use crate::container::naming;
use crate::container::runtimes::docker;
use crate::container::stats;
use crate::container::stats::ServiceStatsStore;
use crate::container::Container;
use crate::container::ContainerMetadata;
use crate::container::ContainerPort;
use crate::container::ContainerPortMetadata;
use crate::container::ContainerStats;
use crate::container::InstanceMetadata;
use crate::container::InstanceStore;
use crate::level::Level;
use crate::proxy;
use crate::proxy::Backends;
use crate::stores;
use crate::text;
use rustc_hash::FxHashSet;
use std::collections::HashMap;
use std::sync::Arc;
use vstd::prelude::*;
use vstd::string::*;

verus! {

/// Where a service is reached from outside.
#[derive(Debug)]
pub struct ServiceUrl {
    pub url: String,
    pub node_port: u16,
}

/// Where a container is reached.
#[derive(Debug)]
pub struct ContainerUrl {
    pub url: String,
    pub port: u16,
    pub target_url: Option<String>,
    pub target_port: Option<u16>,
}

/// A port of a container.
#[derive(Clone, Copy, PartialEq, Eq, Structural, Debug)]
pub struct PortStatus {
    pub port: u16,
    pub target_port: Option<u16>,
    pub node_port: Option<u16>,
    pub healthy: bool,
}

/// A container.
#[derive(Debug)]
pub struct ContainerStatus {
    pub name: String,
    pub ip_address: String,
    pub ports: Vec<PortStatus>,
    pub status: String,
    pub cpu_percentage: Option<Level>,
    pub cpu_percentage_relative: Option<Level>,
    pub memory_usage: Option<u64>,
    pub memory_limit: Option<u64>,
    pub urls: Vec<ContainerUrl>,
    pub health_status: Option<ContainerHealthState>,
}

/// A pod.
#[derive(Debug)]
pub struct PodStatus {
    pub uuid: u128,
    pub containers: Vec<ContainerStatus>,
}

/// A service.
#[derive(Debug)]
pub struct ServiceStatus {
    pub service_name: String,
    pub service_ports: Vec<u16>,
    pub service_urls: Vec<ServiceUrl>,
    pub pods: Vec<PodStatus>,
}

/// What the status is drawn from.
pub struct Sources {
    pub backends: Map<Seq<char>, FxHashSet<String>>,
    pub stats: Map<Seq<char>, crate::container::stats::ServiceStats>,
    pub health: HealthStore,
}

/// The port answers behind its proxy.
pub open spec fn answers(
    backends: Map<Seq<char>, FxHashSet<String>>,
    service: Seq<char>,
    ip: Seq<char>,
    p: ContainerPortMetadata,
) -> bool {
    p.node_port matches Some(n) && proxy::behind(backends, naming::proxy_key(service, n)).contains(
        naming::address(ip, p.port),
    )
}

/// The port is healthy: behind its proxy, if it has one, and otherwise at an
/// address of its own with a target port.
pub open spec fn port_healthy(
    backends: Map<Seq<char>, FxHashSet<String>>,
    service: Seq<char>,
    ip: Seq<char>,
    p: ContainerPortMetadata,
) -> bool {
    if p.node_port is Some {
        answers(backends, service, ip, p)
    } else {
        ip != "0.0.0.0"@ && p.target_port is Some
    }
}

/// The status of a port.
pub open spec fn port_status(
    backends: Map<Seq<char>, FxHashSet<String>>,
    service: Seq<char>,
    ip: Seq<char>,
    p: ContainerPortMetadata,
) -> PortStatus {
    PortStatus {
        port: p.port,
        target_port: p.target_port,
        node_port: p.node_port,
        healthy: port_healthy(backends, service, ip, p),
    }
}

/// Some port has a proxy.
pub open spec fn has_proxy(ports: Seq<ContainerPortMetadata>) -> bool {
    exists|i: int| 0 <= i < ports.len() && (#[trigger] ports[i]).node_port is Some
}

/// Some port answers behind its proxy.
pub open spec fn some_answer(
    backends: Map<Seq<char>, FxHashSet<String>>,
    service: Seq<char>,
    ip: Seq<char>,
    ports: Seq<ContainerPortMetadata>,
) -> bool {
    exists|i: int| 0 <= i < ports.len() && answers(backends, service, ip, #[trigger] ports[i])
}

/// The container runs: behind a proxy, if it has any, and otherwise with a port
/// and an address.
pub open spec fn runs(
    backends: Map<Seq<char>, FxHashSet<String>>,
    service: Seq<char>,
    ip: Seq<char>,
    ports: Seq<ContainerPortMetadata>,
) -> bool {
    if has_proxy(ports) {
        some_answer(backends, service, ip, ports)
    } else {
        ports.len() > 0 && ip.len() > 0
    }
}

/// The word for whether a container runs.
pub open spec fn status_word(runs: bool) -> Seq<char> {
    if runs {
        "running"@
    } else {
        "stopped"@
    }
}

/// A plain web address.
pub open spec fn url(host: Seq<char>, port: u16) -> Seq<char> {
    "http://"@ + naming::address(host, port)
}

/// `u` is where the port of the container is reached.
pub open spec fn is_container_url(u: ContainerUrl, ip: Seq<char>, p: ContainerPortMetadata) -> bool {
    &&& u.url@ == url(ip, p.port)
    &&& u.port == p.port
    &&& u.target_port == p.target_port
    &&& match p.target_port {
        Some(t) => u.target_url is Some && u.target_url->0@ == url(ip, t),
        None => u.target_url is None,
    }
}

/// `s` is the status of the container.
pub open spec fn is_container_status(
    s: ContainerStatus,
    service: Seq<char>,
    c: ContainerMetadata,
    from: Sources,
) -> bool {
    let kept = stats::kept_stats(from.stats, service, c.name@);
    &&& s.name@ == c.name@
    &&& s.ip_address@ == c.ip_address@
    &&& s.ports@ == c.ports@.map_values(
        |p: ContainerPortMetadata| port_status(from.backends, service, c.ip_address@, p),
    )
    &&& s.status@ == status_word(runs(from.backends, service, c.ip_address@, c.ports@))
    &&& s.cpu_percentage == (match kept {
        Some(k) => Some(k.cpu_percentage),
        None => None,
    })
    &&& s.cpu_percentage_relative == (match kept {
        Some(k) => Some(k.cpu_percentage_relative),
        None => None,
    })
    &&& s.memory_usage == (match kept {
        Some(k) => Some(k.memory_usage),
        None => None,
    })
    &&& s.memory_limit == (match kept {
        Some(k) => Some(k.memory_limit),
        None => None,
    })
    &&& s.urls@.len() == c.ports@.len()
    &&& forall|i: int|
        0 <= i < c.ports@.len() ==> is_container_url(#[trigger] s.urls@[i], c.ip_address@, c.ports@[i])
    &&& match s.health_status {
        Some(h) => health::health_of(from.health, c.name@) == Some(h@),
        None => health::health_of(from.health, c.name@) is None,
    }
}

/// `s` is the status of the pod.
pub open spec fn is_pod_status(
    s: PodStatus,
    service: Seq<char>,
    uuid: u128,
    pods: Map<u128, InstanceMetadata>,
    from: Sources,
) -> bool {
    &&& s.uuid == uuid
    &&& pods.contains_key(uuid)
    &&& s.containers@.len() == pods[uuid].containers@.len()
    &&& forall|i: int|
        0 <= i < s.containers@.len() ==> is_container_status(
            #[trigger] s.containers@[i],
            service,
            pods[uuid].containers@[i],
            from,
        )
}

/// The ports of some entries, in order.
pub open spec fn listed_ports(ports: Seq<ContainerPort>) -> Seq<u16> {
    ports.map_values(|p: ContainerPort| p.port)
}

/// The ports that a definition names, in order.
pub open spec fn service_ports(containers: Seq<Container>) -> Seq<u16>
    decreases containers.len(),
{
    if containers.len() == 0 {
        Seq::empty()
    } else {
        service_ports(containers.drop_last()) + listed_ports(docker::ports_of(containers.last()))
    }
}

/// The node ports of some entries, in order.
pub open spec fn listed_node_ports(ports: Seq<ContainerPort>) -> Seq<u16>
    decreases ports.len(),
{
    if ports.len() == 0 {
        Seq::empty()
    } else {
        let rest = listed_node_ports(ports.drop_last());
        match ports.last().node_port {
            Some(n) => rest.push(n),
            None => rest,
        }
    }
}

/// The node ports that a definition names, in order.
pub open spec fn service_node_ports(containers: Seq<Container>) -> Seq<u16>
    decreases containers.len(),
{
    if containers.len() == 0 {
        Seq::empty()
    } else {
        service_node_ports(containers.drop_last()) + listed_node_ports(docker::ports_of(containers.last()))
    }
}

/// `u` lists where the service is reached on the given ports.
pub open spec fn are_service_urls(u: Seq<ServiceUrl>, node_ports: Seq<u16>) -> bool {
    &&& u.len() == node_ports.len()
    &&& forall|i: int|
        0 <= i < u.len() ==> (#[trigger] u[i]).node_port == node_ports[i] && u[i].url@ == "http://localhost:"@
            + text::decimal(node_ports[i] as nat)
}

/// `list` is the status of all the pods, in the given order.
pub open spec fn are_pod_statuses(
    list: Seq<PodStatus>,
    service: Seq<char>,
    order: Seq<u128>,
    pods: Map<u128, InstanceMetadata>,
    from: Sources,
) -> bool {
    &&& lifecycle::walks(order, pods)
    &&& list.len() == order.len()
    &&& forall|i: int| 0 <= i < list.len() ==> is_pod_status(#[trigger] list[i], service, order[i], pods, from)
}

/// `s` is the status of the service, under the given definition.
pub open spec fn is_service_status(
    s: ServiceStatus,
    service: Seq<char>,
    config: ServiceConfig,
    pods: Map<u128, InstanceMetadata>,
    from: Sources,
) -> bool {
    &&& s.service_name@ == service
    &&& s.service_ports@ == service_ports(config.spec.containers@)
    &&& are_service_urls(s.service_urls@, service_node_ports(config.spec.containers@))
    &&& exists|order: Seq<u128>| #[trigger] are_pod_statuses(s.pods@, service, order, pods, from)
}

/// Whether a port answers behind its proxy.
fn port_answers(backends: &Backends, service_name: &str, ip: &str, p: &ContainerPortMetadata) -> (r: bool)
    ensures
        r == answers(stores::entries(*backends), service_name@, ip@, *p),
{
    match p.node_port {
        Some(n) => {
            let key: String = naming::proxy_key_of(service_name, n);
            match stores::map_get(backends, key.as_str()) {
                Some(set) => {
                    let address: String = naming::address_of(ip, p.port);
                    stores::set_contains(set, address.as_str())
                },
                None => false,
            }
        },
        None => false,
    }
}

/// The statuses of some ports.
fn port_statuses(backends: &Backends, service_name: &str, ip: &str, ports: &Vec<ContainerPortMetadata>) -> (r: Vec<
    PortStatus,
>)
    ensures
        r@ == ports@.map_values(
            |p: ContainerPortMetadata| port_status(stores::entries(*backends), service_name@, ip@, p),
        ),
{
    let mut r: Vec<PortStatus> = Vec::new();
    let mut i: usize = 0;
    while i < ports.len()
        invariant
            i <= ports@.len(),
            r@.len() == i,
            forall|j: int|
                0 <= j < i ==> #[trigger] r@[j] == port_status(
                    stores::entries(*backends),
                    service_name@,
                    ip@,
                    ports@[j],
                ),
        decreases ports@.len() - i,
    {
        let p: ContainerPortMetadata = ports[i];
        let healthy: bool = if p.node_port.is_some() {
            port_answers(backends, service_name, ip, &p)
        } else {
            !text::same(ip, "0.0.0.0") && p.target_port.is_some()
        };
        r.push(PortStatus { port: p.port, target_port: p.target_port, node_port: p.node_port, healthy });
        i = i + 1;
    }
    assert(r@ =~= ports@.map_values(
        |p: ContainerPortMetadata| port_status(stores::entries(*backends), service_name@, ip@, p),
    ));
    r
}

/// Whether a container runs.
fn container_runs(backends: &Backends, service_name: &str, ip: &str, ports: &Vec<ContainerPortMetadata>) -> (r: bool)
    ensures
        r == runs(stores::entries(*backends), service_name@, ip@, ports@),
{
    let ghost b = stores::entries(*backends);
    let mut proxied: bool = false;
    let mut i: usize = 0;
    while i < ports.len()
        invariant
            i <= ports@.len(),
            b == stores::entries(*backends),
            proxied == exists|j: int| 0 <= j < i && (#[trigger] ports@[j]).node_port is Some,
            forall|j: int| 0 <= j < i ==> !answers(b, service_name@, ip@, #[trigger] ports@[j]),
        decreases ports@.len() - i,
    {
        if ports[i].node_port.is_some() {
            proxied = true;
            assert(ports@[i as int].node_port is Some);
            if port_answers(backends, service_name, ip, &ports[i]) {
                assert(has_proxy(ports@));
                assert(some_answer(b, service_name@, ip@, ports@));
                return true;
            }
        }
        i = i + 1;
    }
    if proxied {
        return false;
    }
    ports.len() > 0 && !ip.is_empty()
}

/// Where the ports of a container are reached.
fn container_urls(ip: &str, ports: &Vec<ContainerPortMetadata>) -> (r: Vec<ContainerUrl>)
    ensures
        r@.len() == ports@.len(),
        forall|i: int| 0 <= i < ports@.len() ==> is_container_url(#[trigger] r@[i], ip@, ports@[i]),
{
    let mut r: Vec<ContainerUrl> = Vec::new();
    let mut i: usize = 0;
    while i < ports.len()
        invariant
            i <= ports@.len(),
            r@.len() == i,
            forall|j: int| 0 <= j < i ==> is_container_url(#[trigger] r@[j], ip@, ports@[j]),
        decreases ports@.len() - i,
    {
        let p: ContainerPortMetadata = ports[i];
        let address: String = naming::address_of(ip, p.port);
        let target_url: Option<String> = match p.target_port {
            Some(t) => {
                let target: String = naming::address_of(ip, t);
                Some("http://".to_owned().concat(target.as_str()))
            },
            None => None,
        };
        r.push(
            ContainerUrl {
                url: "http://".to_owned().concat(address.as_str()),
                port: p.port,
                target_url,
                target_port: p.target_port,
            },
        );
        i = i + 1;
    }
    r
}

/// The health of a container, copied.
fn copy_health(h: &ContainerHealthState) -> (r: ContainerHealthState)
    ensures
        r@ == h@,
{
    let message: Option<String> = match &h.message {
        Some(m) => Some(m.clone()),
        None => None,
    };
    ContainerHealthState {
        state: h.state,
        last_state: h.last_state,
        last_transition: h.last_transition,
        restart_count: h.restart_count,
        last_restart: h.last_restart,
        failure_count: h.failure_count,
        last_failure: h.last_failure,
        message,
    }
}

/// The status of a container.
pub fn container_status(
    service_name: &str,
    container: &ContainerMetadata,
    backends: &Backends,
    services: &ServiceStatsStore,
    health_store: &HealthStore,
) -> (r: ContainerStatus)
    ensures
        is_container_status(
            r,
            service_name@,
            *container,
            (Sources {
                backends: stores::entries(*backends),
                stats: stores::entries(*services),
                health: *health_store,
            }),
        ),
{
    let kept: Option<Arc<ContainerStats>> = match stores::map_get(services, service_name) {
        Some(s) => s.get_container_stats(container.name.as_str()),
        None => None,
    };
    let (cpu_percentage, cpu_percentage_relative, memory_usage, memory_limit): (
        Option<Level>,
        Option<Level>,
        Option<u64>,
        Option<u64>,
    ) = match &kept {
        Some(k) => (
            Some(k.cpu_percentage),
            Some(k.cpu_percentage_relative),
            Some(k.memory_usage),
            Some(k.memory_limit),
        ),
        None => (None, None, None, None),
    };
    let ip: &str = container.ip_address.as_str();
    let status: String = if container_runs(backends, service_name, ip, &container.ports) {
        "running".to_owned()
    } else {
        "stopped".to_owned()
    };
    let health_status: Option<ContainerHealthState> = match health::get_container_health(
        health_store,
        container.name.as_str(),
    ) {
        Some(h) => Some(copy_health(h)),
        None => None,
    };
    ContainerStatus {
        name: container.name.clone(),
        ip_address: container.ip_address.clone(),
        ports: port_statuses(backends, service_name, ip, &container.ports),
        status,
        cpu_percentage,
        cpu_percentage_relative,
        memory_usage,
        memory_limit,
        urls: container_urls(ip, &container.ports),
        health_status,
    }
}

/// The ports that a definition names, and where the service is reached.
pub fn ports_and_urls(config: &ServiceConfig) -> (r: (Vec<u16>, Vec<ServiceUrl>))
    ensures
        r.0@ == service_ports(config.spec.containers@),
        are_service_urls(r.1@, service_node_ports(config.spec.containers@)),
{
    let mut ports: Vec<u16> = Vec::new();
    let mut urls: Vec<ServiceUrl> = Vec::new();
    let containers: &Vec<Container> = &config.spec.containers;
    let mut i: usize = 0;
    assert(containers@.take(0) =~= Seq::empty());
    while i < containers.len()
        invariant
            i <= containers@.len(),
            ports@ == service_ports(containers@.take(i as int)),
            are_service_urls(urls@, service_node_ports(containers@.take(i as int))),
        decreases containers@.len() - i,
    {
        let ghost so_far = service_ports(containers@.take(i as int));
        let ghost nodes = service_node_ports(containers@.take(i as int));
        proof {
            assert(containers@.take(i + 1).drop_last() =~= containers@.take(i as int));
            assert(containers@.take(i + 1).last() == containers@[i as int]);
        }
        match &containers[i].ports {
            Some(entries) => {
                let mut j: usize = 0;
                assert(entries@.take(0) =~= Seq::empty());
                assert(so_far + listed_ports(entries@.take(0)) =~= so_far);
                assert(nodes + listed_node_ports(entries@.take(0)) =~= nodes);
                while j < entries.len()
                    invariant
                        j <= entries@.len(),
                        ports@ == so_far + listed_ports(entries@.take(j as int)),
                        are_service_urls(urls@, nodes + listed_node_ports(entries@.take(j as int))),
                    decreases entries@.len() - j,
                {
                    let p: ContainerPort = entries[j];
                    proof {
                        assert(entries@.take(j + 1).drop_last() =~= entries@.take(j as int));
                        assert(entries@.take(j + 1).last() == p);
                        assert(so_far + listed_ports(entries@.take(j + 1)) =~= (so_far + listed_ports(
                            entries@.take(j as int),
                        )).push(p.port));
                    }
                    ports.push(p.port);
                    if let Some(n) = p.node_port {
                        let ghost listed = nodes + listed_node_ports(entries@.take(j as int));
                        let number: String = text::decimal_of(n as u128);
                        urls.push(
                            ServiceUrl {
                                url: "http://localhost:".to_owned().concat(number.as_str()),
                                node_port: n,
                            },
                        );
                        assert(nodes + listed_node_ports(entries@.take(j + 1)) =~= listed.push(n));
                    }
                    j = j + 1;
                }
                assert(entries@.take(j as int) =~= entries@);
            },
            None => {
                assert(so_far + listed_ports(Seq::empty()) =~= so_far);
                assert(nodes + listed_node_ports(Seq::empty()) =~= nodes);
            },
        }
        i = i + 1;
    }
    assert(containers@.take(i as int) =~= containers@);
    (ports, urls)
}

/// The status of a service under a definition.
pub fn service_status(
    service_name: &str,
    config: &ServiceConfig,
    pods: &HashMap<u128, InstanceMetadata>,
    backends: &Backends,
    services: &ServiceStatsStore,
    health_store: &HealthStore,
) -> (r: ServiceStatus)
    ensures
        is_service_status(
            r,
            service_name@,
            *config,
            pods@,
            (Sources {
                backends: stores::entries(*backends),
                stats: stores::entries(*services),
                health: *health_store,
            }),
        ),
{
    let ghost from = Sources {
        backends: stores::entries(*backends),
        stats: stores::entries(*services),
        health: *health_store,
    };
    let (service_ports, service_urls): (Vec<u16>, Vec<ServiceUrl>) = ports_and_urls(config);
    let keys: Vec<u128> = stores::id_keys(pods);
    let mut list: Vec<PodStatus> = Vec::new();
    let mut i: usize = 0;
    while i < keys.len()
        invariant
            i <= keys@.len(),
            from == (Sources {
                backends: stores::entries(*backends),
                stats: stores::entries(*services),
                health: *health_store,
            }),
            forall|j: int| 0 <= j < keys@.len() ==> pods@.contains_key(#[trigger] keys@[j]),
            list@.len() == i,
            forall|j: int|
                0 <= j < list@.len() ==> is_pod_status(#[trigger] list@[j], service_name@, keys@[j], pods@, from),
        decreases keys@.len() - i,
    {
        assert(pods@.contains_key(keys@[i as int]));
        if let Some(pod) = pods.get(&keys[i]) {
            let mut containers: Vec<ContainerStatus> = Vec::new();
            let mut c: usize = 0;
            while c < pod.containers.len()
                invariant
                    c <= pod.containers@.len(),
                    from == (Sources {
                        backends: stores::entries(*backends),
                        stats: stores::entries(*services),
                        health: *health_store,
                    }),
                    containers@.len() == c,
                    forall|j: int|
                        0 <= j < c ==> is_container_status(
                            #[trigger] containers@[j],
                            service_name@,
                            pod.containers@[j],
                            from,
                        ),
                decreases pod.containers@.len() - c,
            {
                containers.push(container_status(service_name, &pod.containers[c], backends, services, health_store));
                c = c + 1;
            }
            list.push(PodStatus { uuid: keys[i], containers });
        }
        i = i + 1;
    }
    let r: ServiceStatus = ServiceStatus {
        service_name: service_name.to_owned(),
        service_ports,
        service_urls,
        pods: list,
    };
    proof {
        assert(lifecycle::walks(keys@, pods@));
        assert(are_pod_statuses(r.pods@, service_name@, keys@, pods@, from));
    }
    r
}

/// Some definition of the service gives the status.
pub open spec fn reported(
    s: ServiceStatus,
    name: Seq<char>,
    configs: Map<Seq<char>, Arc<StoredConfig>>,
    instances: Map<Seq<char>, HashMap<u128, InstanceMetadata>>,
    from: Sources,
) -> bool {
    exists|k: Seq<char>| #[trigger]
        utils::defines(configs, k, name) && is_service_status(
            s,
            name,
            configs[k].config,
            proxy::pods_of(instances, name),
            from,
        )
}

/// The service has both pods on record and a definition.
pub open spec fn reportable(
    name: Seq<char>,
    configs: Map<Seq<char>, Arc<StoredConfig>>,
    instances: Map<Seq<char>, HashMap<u128, InstanceMetadata>>,
) -> bool {
    instances.contains_key(name) && exists|k: Seq<char>| #[trigger] utils::defines(configs, k, name)
}

/// The status of every service that has pods on record and a definition, each
/// once.
pub fn get_status(
    instance_store: &InstanceStore,
    configs: &ConfigStore,
    backends: &Backends,
    services: &ServiceStatsStore,
    health_store: &HealthStore,
) -> (r: Vec<ServiceStatus>)
    ensures
        ({
            let from = Sources {
                backends: stores::entries(*backends),
                stats: stores::entries(*services),
                health: *health_store,
            };
            let held = store::stored(*configs);
            let instances = stores::entries(*instance_store);
            &&& forall|i: int|
                0 <= i < r@.len() ==> reportable((#[trigger] r@[i]).service_name@, held, instances) && reported(
                    r@[i],
                    r@[i].service_name@,
                    held,
                    instances,
                    from,
                )
            &&& forall|i: int, j: int|
                0 <= i < j < r@.len() ==> (#[trigger] r@[i]).service_name@ != (#[trigger] r@[j]).service_name@
            &&& forall|n: Seq<char>| #[trigger]
                reportable(n, held, instances) ==> exists|i: int|
                    0 <= i < r@.len() && (#[trigger] r@[i]).service_name@ == n
        }),
{
    let ghost from = Sources {
        backends: stores::entries(*backends),
        stats: stores::entries(*services),
        health: *health_store,
    };
    let ghost held = store::stored(*configs);
    let ghost instances = stores::entries(*instance_store);
    let names: Vec<String> = stores::map_keys(instance_store);
    let ghost texts = names@.map_values(|s: String| s@);
    let mut r: Vec<ServiceStatus> = Vec::new();
    let mut i: usize = 0;
    while i < names.len()
        invariant
            i <= names@.len(),
            from == (Sources {
                backends: stores::entries(*backends),
                stats: stores::entries(*services),
                health: *health_store,
            }),
            held == store::stored(*configs),
            instances == stores::entries(*instance_store),
            texts == names@.map_values(|s: String| s@),
            texts.no_duplicates(),
            forall|k: Seq<char>| instances.contains_key(k) == texts.contains(k),
            forall|j: int|
                0 <= j < r@.len() ==> reportable((#[trigger] r@[j]).service_name@, held, instances) && reported(
                    r@[j],
                    r@[j].service_name@,
                    held,
                    instances,
                    from,
                ),
            forall|j: int|
                0 <= j < r@.len() ==> texts.take(i as int).contains((#[trigger] r@[j]).service_name@),
            forall|a: int, b: int|
                0 <= a < b < r@.len() ==> (#[trigger] r@[a]).service_name@ != (#[trigger] r@[b]).service_name@,
            forall|j: int|
                0 <= j < i && reportable(#[trigger] texts[j], held, instances) ==> exists|k: int|
                    0 <= k < r@.len() && (#[trigger] r@[k]).service_name@ == texts[j],
        decreases names@.len() - i,
    {
        let ghost before = r@;
        let name: &str = names[i].as_str();
        proof {
            assert(texts[i as int] == name@);
            assert(texts.contains(texts[i as int]));
            assert(!texts.take(i as int).contains(name@)) by {
                if texts.take(i as int).contains(name@) {
                    let j = choose|j: int| 0 <= j < i && texts[j] == name@;
                    assert(texts[j] == texts[i as int]);
                }
            }
            let (a, b) = (texts.take(i as int), texts.take(i + 1));
            assert(b[i as int] == name@);
            assert forall|n: Seq<char>| a.contains(n) implies b.contains(n) by {
                let j = choose|j: int| 0 <= j < a.len() && a[j] == n;
                assert(b[j] == n);
            }
        }
        if let Some(found) = utils::get_config_by_service(configs, name) {
            if let Some(pods) = stores::map_get(instance_store, name) {
                let s: ServiceStatus = service_status(name, &found.config, pods, backends, services, health_store);
                proof {
                    assert(proxy::pods_of(instances, name@) == pods@);
                    let k = choose|k: Seq<char>| #[trigger] utils::defines(held, k, name@) && held[k] == found;
                    assert(utils::defines(held, k, name@));
                    assert(reported(s, name@, held, instances, from));
                }
                r.push(s);
                proof {
                    assert(r@[before.len() as int].service_name@ == name@);
                    assert forall|j: int|
                        0 <= j < i + 1 && reportable(#[trigger] texts[j], held, instances) implies exists|k: int|
                        0 <= k < r@.len() && (#[trigger] r@[k]).service_name@ == texts[j] by {
                        if j < i {
                            let k = choose|k: int|
                                0 <= k < before.len() && (#[trigger] before[k]).service_name@ == texts[j];
                            assert(r@[k] == before[k]);
                        } else {
                            assert(r@[before.len() as int].service_name@ == texts[j]);
                        }
                    }
                }
            }
        }
        i = i + 1;
    }
    proof {
        assert forall|n: Seq<char>| #[trigger] reportable(n, held, instances) implies exists|k: int|
            0 <= k < r@.len() && (#[trigger] r@[k]).service_name@ == n by {
            assert(texts.contains(n));
            let j = choose|j: int| 0 <= j < texts.len() && texts[j] == n;
            assert(reportable(texts[j], held, instances));
        }
    }
    r
}

/// A container behind a proxy is reported as running exactly while one of its
/// ports answers there.
pub proof fn proxied_containers_run_while_they_answer(
    backends: Map<Seq<char>, FxHashSet<String>>,
    service: Seq<char>,
    ip: Seq<char>,
    ports: Seq<ContainerPortMetadata>,
)
    requires
        has_proxy(ports),
    ensures
        runs(backends, service, ip, ports) == exists|i: int|
            0 <= i < ports.len() && port_status(backends, service, ip, #[trigger] ports[i]).healthy
                && ports[i].node_port is Some,
{
    if some_answer(backends, service, ip, ports) {
        let i = choose|i: int| 0 <= i < ports.len() && answers(backends, service, ip, #[trigger] ports[i]);
        assert(port_status(backends, service, ip, ports[i]).healthy);
    }
    if exists|i: int|
        0 <= i < ports.len() && port_status(backends, service, ip, #[trigger] ports[i]).healthy
            && ports[i].node_port is Some {
        let i = choose|i: int|
            0 <= i < ports.len() && port_status(backends, service, ip, #[trigger] ports[i]).healthy
                && ports[i].node_port is Some;
        assert(answers(backends, service, ip, ports[i]));
    }
}

/// A port with a node port is healthy exactly while the container's address and port are
/// behind the proxy of the service on that node port; one without is where the address is
/// not the one for all, and it has a target port.
pub proof fn ports_are_healthy_behind_their_proxy(
    backends: Map<Seq<char>, FxHashSet<String>>,
    service: Seq<char>,
    ip: Seq<char>,
    p: ContainerPortMetadata,
)
    ensures
        ({
            let s = port_status(backends, service, ip, p);
            &&& s.port == p.port
            &&& s.target_port == p.target_port
            &&& s.node_port == p.node_port
            &&& p.node_port matches Some(n) ==> {
                let key = service + "__"@ + text::decimal(n as nat);
                s.healthy == (backends.contains_key(key) && stores::members(backends[key]).contains(
                    ip + ":"@ + text::decimal(p.port as nat),
                ))
            }
            &&& p.node_port is None ==> s.healthy == (ip != "0.0.0.0"@ && p.target_port is Some)
        }),
{
}

/// A container without a proxy runs exactly where it has ports and an address; one with a
/// proxy where one of its ports is behind its proxy.
pub proof fn containers_without_a_proxy_run_at_an_address(
    backends: Map<Seq<char>, FxHashSet<String>>,
    service: Seq<char>,
    ip: Seq<char>,
    ports: Seq<ContainerPortMetadata>,
)
    ensures
        (forall|i: int| 0 <= i < ports.len() ==> (#[trigger] ports[i]).node_port is None) ==> runs(
            backends,
            service,
            ip,
            ports,
        ) == (ports.len() > 0 && ip.len() > 0),
        (exists|i: int| 0 <= i < ports.len() && (#[trigger] ports[i]).node_port is Some) ==> runs(
            backends,
            service,
            ip,
            ports,
        ) == exists|i: int|
            0 <= i < ports.len() && (#[trigger] ports[i]).node_port is Some && proxy::behind(
                backends,
                service + "__"@ + text::decimal(ports[i].node_port->0 as nat),
            ).contains(ip + ":"@ + text::decimal(ports[i].port as nat)),
        status_word(true) == "running"@,
        status_word(false) == "stopped"@,
{
    if exists|i: int| 0 <= i < ports.len() && (#[trigger] ports[i]).node_port is Some {
        assert(has_proxy(ports));
        if some_answer(backends, service, ip, ports) {
            let i = choose|i: int| 0 <= i < ports.len() && answers(backends, service, ip, #[trigger] ports[i]);
            assert(ports[i].node_port is Some);
        }
        if exists|i: int|
            0 <= i < ports.len() && (#[trigger] ports[i]).node_port is Some && proxy::behind(
                backends,
                service + "__"@ + text::decimal(ports[i].node_port->0 as nat),
            ).contains(ip + ":"@ + text::decimal(ports[i].port as nat)) {
            let i = choose|i: int|
                0 <= i < ports.len() && (#[trigger] ports[i]).node_port is Some && proxy::behind(
                    backends,
                    service + "__"@ + text::decimal(ports[i].node_port->0 as nat),
                ).contains(ip + ":"@ + text::decimal(ports[i].port as nat));
            assert(answers(backends, service, ip, ports[i]));
        }
    }
}

/// The report on a container shows its record, the state of each of its ports in their
/// order, its last readings, its health, and where it is reached.
pub proof fn reports_show_what_is_known(s: ContainerStatus, service: Seq<char>, c: ContainerMetadata, from: Sources, i: int)
    requires
        is_container_status(s, service, c, from),
        0 <= i < c.ports@.len(),
    ensures
        s.name@ == c.name@,
        s.ip_address@ == c.ip_address@,
        s.ports@.len() == c.ports@.len(),
        s.ports@[i] == port_status(from.backends, service, c.ip_address@, c.ports@[i]),
        s.urls@.len() == c.ports@.len(),
        s.urls@[i].port == c.ports@[i].port,
        s.urls@[i].target_port == c.ports@[i].target_port,
        s.urls@[i].url@ == "http://"@ + (c.ip_address@ + ":"@ + text::decimal(c.ports@[i].port as nat)),
        c.ports@[i].target_port matches Some(t) ==> (s.urls@[i].target_url matches Some(u) && u@ == "http://"@ + (
        c.ip_address@ + ":"@ + text::decimal(t as nat))),
        c.ports@[i].target_port is None ==> s.urls@[i].target_url is None,
        (s.status@ == "running"@) == runs(from.backends, service, c.ip_address@, c.ports@),
        ({
            let known = from.stats.contains_key(service) && from.stats[service]@.contains_key(c.name@);
            let kept = from.stats[service]@[c.name@];
            &&& known ==> s.cpu_percentage == Some(kept.cpu_percentage) && s.cpu_percentage_relative == Some(
                kept.cpu_percentage_relative,
            ) && s.memory_usage == Some(kept.memory_usage) && s.memory_limit == Some(kept.memory_limit)
            &&& !known ==> s.cpu_percentage is None && s.cpu_percentage_relative is None && s.memory_usage is None
                && s.memory_limit is None
        }),
        s.health_status matches Some(h) ==> health::health_of(from.health, c.name@) == Some(h@),
        s.health_status is None ==> health::health_of(from.health, c.name@) is None,
{
    reveal_strlit("running");
    reveal_strlit("stopped");
    assert("running"@[0] == 'r' && "stopped"@[0] == 's');
    assert(is_container_url(s.urls@[i], c.ip_address@, c.ports@[i]));
}

/// The ports of a service are those of its containers, one after the other, and so are
/// its node ports, of which each has an address.
pub proof fn service_ports_join(a: Seq<Container>, b: Seq<Container>, c: Container)
    ensures
        service_ports(a + b) == service_ports(a) + service_ports(b),
        service_node_ports(a + b) == service_node_ports(a) + service_node_ports(b),
        c.ports matches Some(p) ==> service_ports(seq![c]) == p@.map_values(|e: ContainerPort| e.port),
        c.ports is None ==> service_ports(seq![c]).len() == 0 && service_node_ports(seq![c]).len() == 0,
        c.ports matches Some(p) ==> service_node_ports(seq![c]) == listed_node_ports(p@),
    decreases b.len(),
{
    assert(service_ports(Seq::empty()) =~= Seq::empty());
    assert(service_node_ports(Seq::empty()) =~= Seq::empty());
    assert(seq![c].drop_last() =~= Seq::empty());
    assert(seq![c].last() == c);
    assert(listed_node_ports(Seq::empty()) =~= Seq::empty());
    assert(service_ports(seq![c]) =~= listed_ports(docker::ports_of(c)));
    assert(service_node_ports(seq![c]) =~= listed_node_ports(docker::ports_of(c)));
    if b.len() == 0 {
        assert(a + b =~= a);
        assert(service_ports(a) + service_ports(b) =~= service_ports(a));
        assert(service_node_ports(a) + service_node_ports(b) =~= service_node_ports(a));
    } else {
        assert((a + b).drop_last() =~= a + b.drop_last());
        assert((a + b).last() == b.last());
        service_ports_join(a, b.drop_last(), c);
        assert(service_ports(a + b) =~= service_ports(a) + service_ports(b));
        assert(service_node_ports(a + b) =~= service_node_ports(a) + service_node_ports(b));
    }
}

/// The node ports of a container are those of its entries that have one, in order.
pub proof fn node_ports_are_those_given(ports: Seq<ContainerPort>, n: u16)
    ensures
        listed_node_ports(ports).contains(n) <==> exists|i: int|
            0 <= i < ports.len() && (#[trigger] ports[i]).node_port == Some(n),
        listed_node_ports(ports).len() == ports.filter(|p: ContainerPort| p.node_port is Some).len(),
    decreases ports.len(),
{
    reveal(Seq::filter);
    if ports.len() > 0 {
        let rest = ports.drop_last();
        node_ports_are_those_given(rest, n);
        let (all, before) = (listed_node_ports(ports), listed_node_ports(rest));
        let last = ports.len() - 1;
        if before.contains(n) {
            let j = choose|j: int| 0 <= j < before.len() && before[j] == n;
            assert(all[j] == n);
            let i = choose|i: int| 0 <= i < rest.len() && (#[trigger] rest[i]).node_port == Some(n);
            assert(ports[i] == rest[i]);
        }
        if ports[last].node_port == Some(n) {
            assert(all[before.len() as int] == n);
        }
        if all.contains(n) && !before.contains(n) {
            let j = choose|j: int| 0 <= j < all.len() && all[j] == n;
            if j < before.len() {
                assert(before[j] == n);
            }
            assert(ports[last].node_port == Some(n));
        }
        if exists|i: int| 0 <= i < ports.len() && (#[trigger] ports[i]).node_port == Some(n) {
            let i = choose|i: int| 0 <= i < ports.len() && (#[trigger] ports[i]).node_port == Some(n);
            if i < rest.len() {
                assert(rest[i] == ports[i]);
            }
        }
    }
}

/// A service is reported exactly where it is on record and defined.
pub proof fn defined_services_on_record_are_reported(
    name: Seq<char>,
    configs: Map<Seq<char>, Arc<StoredConfig>>,
    instances: Map<Seq<char>, HashMap<u128, InstanceMetadata>>,
    k: Seq<char>,
)
    ensures
        instances.contains_key(name) && configs.contains_key(k) && configs[k].config.name@ == name ==> reportable(
            name,
            configs,
            instances,
        ),
        reportable(name, configs, instances) ==> instances.contains_key(name),
{
    if instances.contains_key(name) && configs.contains_key(k) && configs[k].config.name@ == name {
        assert(utils::defines(configs, k, name));
    }
}

/// The report on a service covers each of its pods once, with all containers in their
/// order.
pub proof fn reports_cover_every_pod(
    s: ServiceStatus,
    service: Seq<char>,
    config: ServiceConfig,
    pods: Map<u128, InstanceMetadata>,
    from: Sources,
    u: u128,
    c: int,
) -> (i: int)
    requires
        is_service_status(s, service, config, pods, from),
        pods.contains_key(u),
        0 <= c < pods[u].containers@.len(),
    ensures
        s.service_name@ == service,
        0 <= i < s.pods@.len(),
        s.pods@[i].uuid == u,
        forall|j: int| 0 <= j < s.pods@.len() && j != i ==> (#[trigger] s.pods@[j]).uuid != u,
        s.pods@[i].containers@.len() == pods[u].containers@.len(),
        is_container_status(s.pods@[i].containers@[c], service, pods[u].containers@[c], from),
{
    let order = choose|order: Seq<u128>| #[trigger] are_pod_statuses(s.pods@, service, order, pods, from);
    assert(order.to_set().contains(u));
    let i = choose|i: int| 0 <= i < order.len() && order[i] == u;
    assert(is_pod_status(s.pods@[i], service, order[i], pods, from));
    assert forall|j: int| 0 <= j < s.pods@.len() && j != i implies (#[trigger] s.pods@[j]).uuid != u by {
        assert(is_pod_status(s.pods@[j], service, order[j], pods, from));
    }
    i
}

} // verus!
