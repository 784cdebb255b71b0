use orbit::config::events::TaskNames;
use orbit::config::{
    InstanceCount, PodMetricsStrategy, PodStats, ResourceThresholds, RollingUpdateConfig,
    ScaleMessage, ServiceConfig, ServiceSpec,
};
use orbit::container::health::config::HealthCheckConfig;
use orbit::container::lifecycle::{
    clean_up, image_hashes, insert_pod, instance_from, manage, missing_pods, new_instance_store,
    pod_count, record_managed_pod, remove_pod, stop_service,
};
use orbit::container::rolling_update as rollout;
use orbit::container::rolling_update::{await_new_pods, ReadyStep};
use orbit::container::rollout::{RolloutAction, RolloutEvent};
use orbit::container::runtimes::start::StartedContainer;
use orbit::container::scaling::manager::ScalingDecision;
use orbit::container::scaling::task::{PodContainers, ScalingTask, TaskAction, TaskEvent};
use orbit::container::scaling::{
    endpoints_of, health_targets, is_missing, least_used_pods, may_grow, metrics_strategy,
    on_message, scale_down, scale_up, scaling_step, Inspection, PodReadings, ScalingStep,
};
use orbit::container::stats::{
    aggregate_pod_stats, find_host_port, find_rate_basis, new_stats_history, previous_stats,
    remove_container_stats, update_container_stats, CpuPercentages, NetworkCounters, NetworkRates,
    RawStats, ServiceStats, ServiceStatsStore,
};
use orbit::container::{
    Container, ContainerPort, ContainerPortMetadata, ContainerStats, InstanceStore,
};
use orbit::level::Level;
use orbit::proxy::{
    add_endpoints, new_backends, node_ports, pod_endpoints, remove_endpoints,
    run_proxy_for_service, service_endpoints, Endpoint,
};
use orbit::rolling_update as one_by_one;
use orbit::scale;
use orbit::scale::{
    check_application_readiness, wait_for_container_health, ReadinessStep, WaitStep,
};
use orbit::scale::task::{ThresholdAction, ThresholdEvent, ThresholdTask};
use rustc_hash::FxHashMap;
use std::collections::HashMap;
use std::sync::Arc;

const U1: u128 = 1;
const U1_TEXT: &str = "00000000-0000-0000-0000-000000000001";
const U2_TEXT: &str = "00000000-0000-0000-0000-000000000002";
const U3_TEXT: &str = "00000000-0000-0000-0000-000000000003";

fn s(text: &str) -> String {
    text.to_string()
}

fn level(f: f64) -> Level {
    Level { bits: f.to_bits() }
}

fn container(name: &str, ports: Vec<ContainerPort>) -> Container {
    Container {
        name: s(name),
        image: s("nginx"),
        command: None,
        ports: Some(ports),
        volume_mounts: None,
        volumes: None,
        memory_limit: None,
        cpu_limit: None,
        network_limit: None,
        resource_thresholds: None,
        health_check: None,
    }
}

fn open_port(port: u16, node_port: u16) -> ContainerPort {
    ContainerPort {
        port,
        target_port: None,
        node_port: Some(node_port),
        protocol: None,
    }
}

fn service(min: u8, max: u8) -> ServiceConfig {
    ServiceConfig {
        name: s("web"),
        network: None,
        spec: ServiceSpec {
            containers: vec![container("app", vec![open_port(80, 30080)])],
        },
        volumes: None,
        memory_limit: None,
        cpu_limit: None,
        resource_thresholds: None,
        codel: None,
        scaling_policy: None,
        instance_count: InstanceCount { min, max },
        adopt_orphans: false,
        interval_seconds: None,
        image_check_interval: None,
        rolling_update_config: None,
    }
}

fn started(name: &str, ip: &str) -> Vec<StartedContainer> {
    vec![StartedContainer {
        name: s(name),
        ip: s(ip),
        ports: vec![
            ContainerPortMetadata {
                port: 80,
                target_port: None,
                node_port: Some(30080),
            },
            ContainerPortMetadata {
                port: 81,
                target_port: None,
                node_port: None,
            },
        ],
    }]
}

fn hashes() -> FxHashMap<String, String> {
    [(s("app"), s("sha1"))].into_iter().collect()
}

fn store_with(pods: Vec<u128>) -> InstanceStore {
    let mut store = new_instance_store();
    for u in pods {
        let name = format!("web__0__app__{:08x}-0000-0000-0000-{:012x}", 0, u);
        let pod = instance_from(u, 5, "web_net", hashes(), started(&name, &format!("10.0.0.{}", u)));
        insert_pod(&mut store, "web", pod);
    }
    store
}

#[test]
fn pods_come_and_go() {
    let mut store = store_with(vec![1, 2]);
    assert_eq!(pod_count(&store, "web"), 2);
    assert_eq!(pod_count(&store, "api"), 0);
    assert_eq!(missing_pods(&store, "web", &service(3, 5)), 1);
    assert_eq!(missing_pods(&store, "web", &service(1, 5)), 0);
    assert_eq!(missing_pods(&store, "api", &service(2, 5)), 2);
    let pod = &store["web"][&1];
    assert_eq!(pod.containers[0].ip_address, "10.0.0.1");
    assert_eq!(pod.containers[0].network, "web_net");
    assert_eq!(pod.containers[0].status, "running");
    assert_eq!(pod.image_hash["app"], "sha1");
    remove_pod(&mut store, "web", 1);
    assert_eq!(pod_count(&store, "web"), 1);
    remove_pod(&mut store, "web", 9);
    remove_pod(&mut store, "api", 2);
    assert_eq!(pod_count(&store, "web"), 1);
}

#[test]
fn managed_pods_are_recorded_under_their_uuid() {
    let mut store = new_instance_store();
    record_managed_pod(&mut store, "web", U1, 77, hashes(), started("web__0__app__x", "10.0.0.9"));
    let pod = &store["web"][&U1];
    assert_eq!(pod.uuid, U1);
    assert_eq!(pod.created_at, 77);
    assert_eq!(pod.network, format!("web__{}", U1_TEXT));
    let name = format!("web__3__app__{}", U2_TEXT);
    assert_eq!(manage(&mut store, "web", 80, hashes(), started(&name, "10.0.0.6")), 2);
    assert_eq!(store["web"][&2].network, format!("web__{}", U2_TEXT));
    remove_pod(&mut store, "web", 2);
    let first = manage(&mut store, "web", 78, hashes(), started("web__1__app__x", "10.0.0.8"));
    let second = manage(&mut store, "web", 79, hashes(), started("web__2__app__x", "10.0.0.7"));
    assert_ne!(first, second);
    assert_eq!((first >> 76) & 0xf, 4);
    assert_eq!((first >> 62) & 0x3, 2);
    assert_eq!(store["web"][&first].created_at, 78);
    assert_eq!(pod_count(&store, "web"), 3);
}

#[test]
fn known_images_are_recorded_by_name() {
    let containers = vec![container("a", vec![]), container("b", vec![])];
    let m = image_hashes(&containers, &vec![Some(s("x")), None]);
    assert_eq!(m.len(), 1);
    assert_eq!(m["a"], "x");
}

#[test]
fn cleaning_up_leaves_nothing_of_a_service() {
    let mut store = store_with(vec![1]);
    let mut history = new_stats_history();
    let mut services = ServiceStatsStore::default();
    let raw = raw_stats(None);
    let name = store["web"][&1].containers[0].name.clone();
    for n in [name.as_str(), "other"] {
        update_container_stats(
            &mut history, &mut services, "web", n, &raw, &no_cpu(), &no_rates(), 10,
        );
    }
    let mut tasks: TaskNames = [s("web"), s("api")].into_iter().collect();
    let left = clean_up(&mut tasks, &mut store, &mut history, &mut services, "web").unwrap();
    assert_eq!(left.stop, vec![name.clone()]);
    assert_eq!(left.endpoints.len(), 1);
    assert_eq!(left.endpoints[0].proxy_key, "web__30080");
    assert_eq!(left.endpoints[0].address, "10.0.0.1:80");
    assert!(store.is_empty() && services.is_empty());
    assert!(!tasks.contains("web") && tasks.contains("api"));
    assert!(previous_stats(&history, &services, "web", &name).is_none());
    assert!(previous_stats(&history, &services, "web", "other").is_some());
    assert!(clean_up(&mut tasks, &mut store, &mut history, &mut services, "web").is_none());
}

#[test]
fn stopping_a_service_names_every_container_of_every_pod() {
    let mut store = store_with(vec![1, 2]);
    let mut list = started(&format!("web__3__app__{}", U3_TEXT), "10.0.0.3");
    list.extend(started(&format!("web__3__side__{}", U3_TEXT), "10.0.0.4"));
    insert_pod(&mut store, "web", instance_from(3, 5, "web_net", hashes(), list));
    let mut history = new_stats_history();
    let mut services = ServiceStatsStore::default();
    let first = store["web"][&1].containers[0].name.clone();
    for (service, container) in [("web", first.as_str()), ("api", "api__0__app__x")] {
        update_container_stats(
            &mut history, &mut services, service, container, &raw_stats(None), &no_cpu(),
            &no_rates(), 10,
        );
    }
    let mut backends = new_backends();
    for key in ["web", "web__30080", "web__0", "web__080", "web__70000", "web2__30080"] {
        backends.insert(s(key), Default::default());
    }
    let mut tasks: TaskNames = [s("web"), s("api")].into_iter().collect();
    let mut names = stop_service(&mut tasks, &mut store, &mut backends, &mut history, &mut services, "web");
    names.sort();
    assert_eq!(
        names,
        vec![
            format!("web__0__app__{}", U1_TEXT),
            format!("web__0__app__{}", U2_TEXT),
            format!("web__3__app__{}", U3_TEXT),
            format!("web__3__side__{}", U3_TEXT),
        ]
    );
    assert!(store.is_empty());
    assert!(!tasks.contains("web") && tasks.contains("api"));
    let mut left: Vec<&String> = backends.keys().collect();
    left.sort();
    assert_eq!(left, ["web", "web2__30080", "web__080", "web__70000"]);
    assert!(!services.contains_key("web") && services.contains_key("api"));
    assert!(previous_stats(&history, &services, "web", &first).is_none());
    assert!(previous_stats(&history, &services, "api", "api__0__app__x").is_some());
    assert!(clean_up(&mut tasks, &mut store, &mut history, &mut services, "web").is_none());
    assert!(stop_service(&mut tasks, &mut store, &mut backends, &mut history, &mut services, "web").is_empty());
}

fn raw_stats(networks: Option<Vec<NetworkCounters>>) -> RawStats {
    RawStats {
        id: s("id"),
        cpu_total_usage: 1000,
        system_cpu_usage: None,
        memory_usage: Some(5),
        memory_limit: None,
        networks,
    }
}

fn no_cpu() -> CpuPercentages {
    CpuPercentages {
        absolute: level(1.5),
        relative: level(2.5),
    }
}

fn no_rates() -> NetworkRates {
    NetworkRates {
        rx: level(7.0),
        tx: level(8.0),
    }
}

#[test]
fn reports_are_digested_and_kept() {
    let mut history = new_stats_history();
    let mut services = ServiceStatsStore::default();
    let counters = |rx_bytes, tx_bytes| NetworkCounters { rx_bytes, tx_bytes };
    let first = raw_stats(Some(vec![counters(10, 1), counters(20, 2)]));
    let r = update_container_stats(
        &mut history, &mut services, "web", "c1", &first, &no_cpu(), &no_rates(), 100,
    );
    assert_eq!((r.network_rx_bytes, r.network_tx_bytes), (30, 3));
    assert_eq!(r.network_rx_rate, level(0.0));
    assert_eq!((r.memory_usage, r.memory_limit), (5, 0));
    assert_eq!(r.cpu_percentage, level(1.5));
    assert_eq!(r.timestamp, 100);

    let (entry, before) = previous_stats(&history, &services, "web", "c1").unwrap();
    assert_eq!(entry.cpu_total_usage, 1000);
    assert_eq!(entry.system_cpu_usage, 0);
    let before = before.unwrap();
    assert_eq!(before.network_rx_bytes, 30);
    let basis = find_rate_basis(&first.networks, 150, &Some(before.clone())).unwrap();
    assert_eq!(basis.elapsed, 50);
    assert_eq!(basis.before, counters(30, 3));
    assert!(find_rate_basis(&first.networks, 100, &Some(before.clone())).is_none());
    let backwards = find_rate_basis(&first.networks, 10, &Some(before.clone())).unwrap();
    assert_eq!(backwards.elapsed, 1_000_000_000);
    assert!(find_rate_basis(&None, 150, &Some(before)).is_none());

    let r = update_container_stats(
        &mut history, &mut services, "web", "c1", &first, &no_cpu(), &no_rates(), 200,
    );
    assert_eq!(r.network_rx_rate, level(7.0));
    assert_eq!(r.network_tx_rate, level(8.0));

    remove_container_stats(&mut history, &mut services, "web", "c1");
    assert!(previous_stats(&history, &services, "web", "c1").is_none());
    assert!(services["web"].get_container_stats("c1").is_none());
}

#[test]
fn service_stats_hold_the_last_readings() {
    let mut stats = ServiceStats::new();
    assert!(stats.get_container_stats("c").is_none());
    stats.update_stats("c", Arc::new(reading(1.0, 1)));
    stats.update_stats("c", Arc::new(reading(2.0, 2)));
    assert_eq!(stats.get_container_stats("c").unwrap().memory_usage, 2);
    stats.remove_container("c");
    assert!(stats.get_container_stats("c").is_none());
}

fn reading(cpu: f64, memory: u64) -> ContainerStats {
    ContainerStats {
        id: s("id"),
        ip_address: s("10.0.0.1"),
        cpu_percentage: level(cpu),
        cpu_percentage_relative: level(cpu * 2.0),
        memory_usage: memory,
        memory_limit: memory * 10,
        port_mappings: HashMap::from([(80, 49153)]),
        network_rx_bytes: 0,
        network_tx_bytes: 0,
        network_rx_rate: level(0.0),
        network_tx_rate: level(0.0),
        timestamp: 0,
    }
}

#[test]
fn host_ports_are_found_by_container_port() {
    assert_eq!(find_host_port(&reading(0.0, 0), 80), Some(49153));
    assert_eq!(find_host_port(&reading(0.0, 0), 81), None);
}

#[test]
fn a_pods_readings_are_put_together() {
    let stats = vec![
        Arc::new(reading(10.0, 100)),
        Arc::new(reading(30.0, 55)),
        Arc::new(reading(f64::NAN, 0)),
    ];
    let mean = CpuPercentages {
        absolute: level(20.0),
        relative: level(40.0),
    };
    let max = aggregate_pod_stats(&stats, &PodMetricsStrategy::Maximum, &mean);
    assert_eq!(max.cpu_percentage, level(30.0));
    assert_eq!(max.cpu_percentage_relative, level(60.0));
    assert_eq!((max.memory_usage, max.memory_limit), (100, 1000));
    let average = aggregate_pod_stats(&stats, &PodMetricsStrategy::Average, &mean);
    assert_eq!(average.cpu_percentage, level(20.0));
    assert_eq!((average.memory_usage, average.memory_limit), (51, 516));
    let none = aggregate_pod_stats(&vec![], &PodMetricsStrategy::Maximum, &mean);
    assert_eq!(none.cpu_percentage, level(0.0));
}

#[test]
fn endpoints_are_put_behind_proxies_and_taken_away() {
    let store = store_with(vec![1, 2]);
    let list = pod_endpoints("web", &store["web"][&1].containers);
    assert_eq!(list.len(), 1);
    assert_eq!(list[0].proxy_key, "web__30080");
    assert_eq!(list[0].address, "10.0.0.1:80");

    let mut backends = new_backends();
    add_endpoints(&mut backends, &list);
    assert!(backends.is_empty());
    let all = service_endpoints(&store, "web");
    assert_eq!(all.len(), 2);
    assert!(service_endpoints(&store, "api").is_empty());
    let config = service(1, 3);
    assert_eq!(node_ports(&config), vec![30080]);
    assert_eq!(run_proxy_for_service(&mut backends, "web", &config, &list), vec![30080]);
    assert_eq!(backends["web__30080"].len(), 1);
    assert!(run_proxy_for_service(&mut backends, "web", &config, &all).is_empty());
    assert_eq!(backends["web__30080"].len(), 2);
    let stray = vec![Endpoint {
        proxy_key: s("api__1"),
        address: s("10.0.0.9:1"),
    }];
    assert!(run_proxy_for_service(&mut backends, "web", &config, &stray).is_empty());
    assert_eq!(backends.len(), 1);
    remove_endpoints(&mut backends, &list);
    assert_eq!(backends["web__30080"].len(), 1);
    assert!(backends["web__30080"].contains("10.0.0.2:80"));
}

#[test]
fn messages_pause_and_resume_scaling() {
    assert!(on_message(false, "web", "web", ScaleMessage::ConfigUpdate));
    assert!(on_message(false, "web", "web", ScaleMessage::RollingUpdate));
    assert!(!on_message(true, "web", "web", ScaleMessage::Resume));
    assert!(!on_message(true, "web", "web", ScaleMessage::RollingUpdateComplete));
    assert!(on_message(true, "web", "api", ScaleMessage::Resume));
    assert!(is_missing("Docker responded with status code 404"));
    assert!(is_missing("No such container: web"));
    assert!(!is_missing("timeout"));
}

#[test]
fn a_growing_service_records_its_new_pod() {
    let mut store = new_instance_store();
    let name = format!("web__3__app__{}", U1_TEXT);
    let list = scale_up(&mut store, "web", 9, hashes(), started(&name, "10.0.0.1")).unwrap();
    assert_eq!(list[0].proxy_key, "web__30080");
    assert_eq!(store["web"][&U1].network, format!("web__{}", U1_TEXT));
    assert_eq!(store["web"][&U1].created_at, 9);
    assert!(scale_up(&mut store, "web", 9, hashes(), started("junk", "10.0.0.1")).is_err());
    assert_eq!(pod_count(&store, "web"), 1);
    assert!(may_grow(&store, "web", &service(1, 2)));
    assert!(!may_grow(&store, "web", &service(1, 1)));
}

#[test]
fn a_pod_can_go_above_the_minimum() {
    let store = store_with(vec![1, 2]);
    assert!(scale_down(&store, "web", 1, &service(2, 3)).is_none());
    assert!(scale_down(&store, "web", 9, &service(1, 3)).is_none());
    assert!(scale_down(&store, "api", 1, &service(0, 3)).is_none());
    let plan = scale_down(&store, "web", 1, &service(1, 3)).unwrap();
    assert_eq!(plan.containers, vec![store["web"][&1].containers[0].name.clone()]);
    assert_eq!(plan.endpoints[0].address, "10.0.0.1:80");
    assert_eq!(plan.network, Some(s("web_net")));
    let mut shared = service(1, 3);
    shared.network = Some(s("net"));
    assert!(scale_down(&store, "web", 1, &shared).unwrap().network.is_none());
}

#[test]
fn started_containers_are_watched_as_defined() {
    let mut config = service(1, 3);
    config.spec.containers[0].health_check = Some(HealthCheckConfig::default());
    let mut list = started(&format!("web__0__app__{}", U1_TEXT), "10.0.0.1");
    list.extend(started(&format!("web__0__other__{}", U1_TEXT), "10.0.0.2"));
    list.extend(started("junk", "10.0.0.3"));
    let targets = health_targets(&list, &config);
    assert_eq!(targets.len(), 1);
    assert_eq!(targets[0].container_name, list[0].name);
    assert!(targets[0].config.is_some());
    assert_eq!(endpoints_of("web", &list).len(), 3);
}

fn pod(cpu: f64) -> PodStats {
    PodStats {
        cpu_percentage: level(cpu),
        cpu_percentage_relative: level(cpu),
        memory_usage: 0,
        memory_limit: 0,
    }
}

#[test]
fn the_least_used_pods_go_first() {
    let pods = HashMap::from([(1, pod(30.0)), (2, pod(10.0)), (3, pod(20.0)), (4, pod(-1.0))]);
    assert_eq!(least_used_pods(&pods, 3), vec![4, 2, 3]);
    assert_eq!(least_used_pods(&pods, 9).len(), 4);
    assert!(least_used_pods(&HashMap::new(), 2).is_empty());
    let down = |n, current, min| scaling_step(&ScalingDecision::ScaleDown(n), current, min, &pods);
    assert!(matches!(down(1, 4, 4), ScalingStep::Again));
    assert!(matches!(down(0, 4, 1), ScalingStep::Stay));
    assert!(matches!(down(5, 4, 2), ScalingStep::Shrink(l) if l == vec![4, 2]));
    let up = scaling_step(&ScalingDecision::ScaleUp(2), 1, 1, &pods);
    assert!(matches!(up, ScalingStep::Grow(2)));
    let stay = scaling_step(&ScalingDecision::NoChange, 1, 1, &pods);
    assert!(matches!(stay, ScalingStep::Stay));
}

#[test]
fn readings_are_collected_until_a_container_is_gone() {
    let mut r = PodReadings::new();
    assert!(!r.counts());
    assert!(r.record(Inspection::TimedOut));
    assert!(r.record(Inspection::Failed(s("busy"))));
    assert!(r.record(Inspection::Stats(Arc::new(reading(1.0, 1)))));
    assert!(r.counts());
    assert!(!r.record(Inspection::Failed(s("404"))));
    assert!(!r.counts());
    assert_eq!(metrics_strategy(&service(1, 2)), PodMetricsStrategy::Maximum);
}

fn names(uuid: u128, containers: Vec<&str>) -> PodContainers {
    PodContainers {
        uuid,
        containers: containers.into_iter().map(s).collect(),
    }
}

fn seen(cpu: f64) -> TaskEvent {
    TaskEvent::Inspected(Inspection::Stats(Arc::new(reading(cpu, 1))))
}

#[test]
fn a_scaling_round_measures_decides_and_acts() {
    let (mut task, action) = ScalingTask::new(s("web"));
    assert!(matches!(action, TaskAction::LookUp));
    let pods = vec![
        names(1, vec!["a", "b"]),
        names(2, vec![]),
        names(3, vec!["c", "d"]),
        names(4, vec!["e"]),
    ];
    let action = task.on_event(TaskEvent::Snapshot(1, pods));
    assert!(matches!(action, TaskAction::Inspect(n) if n == "a"));
    assert!(matches!(task.on_event(seen(5.0)), TaskAction::Inspect(n) if n == "b"));
    assert!(matches!(task.on_event(seen(9.0)), TaskAction::Aggregate(1)));
    assert_eq!(task.readings().unwrap().len(), 2);
    let action = task.on_event(TaskEvent::Aggregated(pod(9.0)));
    assert!(matches!(action, TaskAction::Inspect(n) if n == "c"));
    let gone = TaskEvent::Inspected(Inspection::Failed(s("No such container")));
    assert!(matches!(task.on_event(gone), TaskAction::Inspect(n) if n == "e"));
    assert!(matches!(task.on_event(seen(2.0)), TaskAction::Aggregate(4)));
    let action = task.on_event(TaskEvent::Aggregated(pod(2.0)));
    assert!(matches!(action, TaskAction::Evaluate));
    assert_eq!(task.measured().len(), 2);
    assert_eq!(task.pod_count(), 4);
    let action = task.on_event(TaskEvent::Decided(Some(ScalingDecision::ScaleDown(2))));
    assert!(matches!(action, TaskAction::TakeAway(4)));
    assert!(matches!(task.on_event(TaskEvent::TakenAway(true)), TaskAction::TakeAway(1)));
    let action = task.on_event(TaskEvent::TakenAway(false));
    assert!(matches!(action, TaskAction::RefreshProxies));
    let action = task.on_event(TaskEvent::Refreshed);
    assert!(matches!(action, TaskAction::Wait(10_000_000_000)));
}

#[test]
fn a_round_that_grows_starts_pods_one_by_one() {
    let (mut task, _) = ScalingTask::new(s("web"));
    assert!(matches!(task.on_event(TaskEvent::Snapshot(1, vec![])), TaskAction::Evaluate));
    let action = task.on_event(TaskEvent::Decided(Some(ScalingDecision::ScaleUp(2))));
    assert!(matches!(action, TaskAction::StartPod));
    assert!(matches!(task.on_event(TaskEvent::Started(true)), TaskAction::StartPod));
    assert!(matches!(task.on_event(TaskEvent::Started(true)), TaskAction::RefreshProxies));
    task.on_event(TaskEvent::Refreshed);
    let told = TaskEvent::Message(s("web"), ScaleMessage::RollingUpdate);
    assert!(matches!(task.on_event(told), TaskAction::Wait(_)));
    assert!(matches!(task.on_event(TaskEvent::Elapsed), TaskAction::Wait(_)));
    let told = TaskEvent::Message(s("api"), ScaleMessage::Resume);
    assert!(matches!(task.on_event(told), TaskAction::Wait(_)));
    let told = TaskEvent::Message(s("web"), ScaleMessage::RollingUpdateComplete);
    assert!(matches!(task.on_event(told), TaskAction::LookUp));
    assert!(matches!(task.on_event(TaskEvent::Gone), TaskAction::Stop));
}

#[test]
fn a_round_at_the_minimum_decides_anew() {
    let (mut task, _) = ScalingTask::new(s("web"));
    task.on_event(TaskEvent::Snapshot(2, vec![names(1, vec![]), names(2, vec![])]));
    let action = task.on_event(TaskEvent::Decided(Some(ScalingDecision::ScaleDown(1))));
    assert!(matches!(action, TaskAction::LookUp));
    task.on_event(TaskEvent::Snapshot(2, vec![]));
    assert!(matches!(task.on_event(TaskEvent::Decided(None)), TaskAction::Wait(_)));
}

#[test]
fn new_images_are_noticed() {
    let a: FxHashMap<String, String> = [(s("x"), s("1"))].into_iter().collect();
    let b: FxHashMap<String, String> = [(s("x"), s("2"))].into_iter().collect();
    let more: FxHashMap<String, String> =
        [(s("x"), s("1")), (s("y"), s("1"))].into_iter().collect();
    let none = FxHashMap::default();
    assert!(!rollout::images_changed(&none, &a));
    assert!(!rollout::images_changed(&a, &a));
    assert!(rollout::images_changed(&a, &b));
    assert!(rollout::images_changed(&a, &more));
    assert!(rollout::images_changed(&more, &a));
    assert!(rollout::images_changed(&a, &none));
    assert_eq!(rollout::check_interval(&service(1, 1)), 300_000_000_000);
}

/// Carries out a rollout in which every start succeeds and every pod answers.
/// Gives the numbers of pods on record after each step.
fn roll_out(store: &mut InstanceStore, config: &ServiceConfig) -> (Vec<usize>, bool) {
    let images: FxHashMap<String, String> = [(s("app"), s("sha2"))].into_iter().collect();
    let (mut task, mut action) =
        rollout::perform_rolling_update(store, "web", config, images).unwrap();
    let mut counts = vec![pod_count(store, "web")];
    let mut next: u128 = 100;
    loop {
        action = match action {
            RolloutAction::StartPods(_) | RolloutAction::AwaitStart => {
                next += 1;
                let name = format!("web__9__app__00000000-0000-0000-0000-{:012x}", next);
                let (pod, a) = task.take_in(store, 7, started(&name, "10.0.0.9"));
                assert_eq!(pod.unwrap().uuid, next);
                a
            }
            RolloutAction::CheckReady => task.on_event(RolloutEvent::Checked(true)),
            RolloutAction::Wait(_) => task.on_event(RolloutEvent::Waited(u128::MAX)),
            RolloutAction::Retire(old) => {
                remove_pod(store, "web", old.uuid);
                task.on_event(RolloutEvent::Retired)
            }
            RolloutAction::Finish => return (counts, true),
            RolloutAction::Fail => return (counts, false),
        };
        counts.push(pod_count(store, "web"));
    }
}

#[test]
fn a_rollout_keeps_to_its_bounds() {
    for (unavailable, surge) in [(1, 1), (0, 1), (1, 0), (2, 3), (0, 9), (9, 0), (255, 255)] {
        for pods in 0..5u128 {
            let mut store = store_with((1..=pods).collect());
            if pods == 0 {
                store = store_with(vec![1]);
                remove_pod(&mut store, "web", 1);
            }
            let mut config = service(1, 3);
            config.rolling_update_config = Some(RollingUpdateConfig {
                max_unavailable: unavailable,
                max_surge: surge,
                timeout: 5,
            });
            let (counts, done) = roll_out(&mut store, &config);
            assert!(done);
            let k = pods as usize;
            for n in counts {
                assert!(n + unavailable as usize >= k && n <= k + surge as usize);
            }
            assert_eq!(pod_count(&store, "web"), k);
            for (uuid, pod) in &store["web"] {
                assert!(*uuid > 100);
                assert_eq!(pod.image_hash["app"], "sha2");
            }
        }
    }
    let mut stuck = service(1, 3);
    stuck.rolling_update_config = Some(RollingUpdateConfig {
        max_unavailable: 0,
        max_surge: 0,
        timeout: 5,
    });
    let mut store = store_with(vec![1, 2]);
    assert_eq!(roll_out(&mut store, &stuck), (vec![2], false));
    assert_eq!(pod_count(&store, "web"), 2);
}

#[test]
fn a_rollout_waits_for_new_pods_and_fails_with_a_start() {
    let mut store = store_with(vec![1, 2]);
    let begin = |store: &InstanceStore| {
        rollout::perform_rolling_update(store, "web", &service(1, 3), hashes()).unwrap()
    };
    let (mut task, action) = begin(&store);
    assert!(matches!(action, RolloutAction::StartPods(1)));
    let name = format!("web__2__app__{}", U3_TEXT);
    let (pod, action) = task.take_in(&mut store, 4, started(&name, "10.0.0.3"));
    assert_eq!(pod.unwrap().containers, vec![name]);
    assert!(matches!(action, RolloutAction::CheckReady));
    let action = task.on_event(RolloutEvent::Checked(false));
    assert!(matches!(action, RolloutAction::Wait(1_000_000_000)));
    let action = task.on_event(RolloutEvent::Waited(299_999_999_999));
    assert!(matches!(action, RolloutAction::CheckReady));
    assert!(matches!(task.on_event(RolloutEvent::Checked(false)), RolloutAction::Wait(_)));
    let action = task.on_event(RolloutEvent::Waited(300_000_000_000));
    assert!(matches!(action, RolloutAction::Retire(_)));

    let mut store = store_with(vec![1, 2]);
    let (mut task, _) = begin(&store);
    assert!(matches!(task.on_event(RolloutEvent::StartFailed), RolloutAction::Fail));
    for bad in [vec![], started("junk", "x"), started(&format!("web__0__app__{}", U1_TEXT), "x")] {
        let (mut task, _) = begin(&store);
        let (pod, action) = task.take_in(&mut store, 4, bad);
        assert!(pod.is_none());
        assert!(matches!(action, RolloutAction::Fail));
        assert_eq!(pod_count(&store, "web"), 2);
    }
}

#[test]
fn a_rollout_records_new_pods_and_retires_old_ones() {
    let mut store = store_with(vec![1]);
    let mut config = service(1, 3);
    config.rolling_update_config = Some(RollingUpdateConfig {
        max_unavailable: 1,
        max_surge: 0,
        timeout: 5,
    });
    match rollout::perform_rolling_update(&store, "web", &config, hashes()).unwrap().1 {
        RolloutAction::Retire(old) => {
            assert_eq!(old.uuid, 1);
            assert_eq!(old.endpoints[0].address, "10.0.0.1:80");
            assert_eq!(old.cleanup.stop, vec![store["web"][&1].containers[0].name.clone()]);
            assert_eq!(old.cleanup.network, Some(format!("web__{}", U1_TEXT)));
        }
        other => panic!("{:?}", other),
    }
    assert!(rollout::perform_rolling_update(&store, "api", &config, hashes()).is_none());

    let mut emptied = store_with(vec![1]);
    let (mut task, _) =
        rollout::perform_rolling_update(&emptied, "web", &config, hashes()).unwrap();
    remove_pod(&mut emptied, "web", 1);
    assert!(matches!(task.on_event(RolloutEvent::Retired), RolloutAction::StartPods(1)));
    let reused = started(&format!("web__0__app__{}", U1_TEXT), "10.0.0.1");
    let (pod, action) = task.take_in(&mut emptied, 4, reused);
    assert!(pod.is_none() && matches!(action, RolloutAction::Fail));
    assert_eq!(pod_count(&emptied, "web"), 0);

    let name = format!("web__2__app__{}", "00000000-0000-0000-0000-000000000003");
    let pod = rollout::record_new_pod(&mut store, "web", 4, hashes(), started(&name, "10.0.0.3"))
        .unwrap()
        .unwrap();
    assert_eq!(pod.uuid, 3);
    assert_eq!(pod.containers, vec![name.clone()]);
    assert_eq!(pod_count(&store, "web"), 2);
    let passed = rollout::record_new_pod(&mut store, "web", 4, hashes(), vec![]).unwrap();
    assert!(passed.is_none());
    assert!(rollout::record_new_pod(&mut store, "web", 4, hashes(), started("x", "y")).is_err());
    let gone = rollout::record_new_pod(&mut store, "api", 4, hashes(), started(&name, "10.0.0.3"));
    assert!(gone.unwrap().is_some());
    assert!(!store.contains_key("api"));
}

#[test]
fn a_pod_with_an_unreadable_name_is_cleaned_up_in_part() {
    let mut list = started(&format!("web__0__app__{}", U1_TEXT), "10.0.0.1");
    list.extend(started("junk", "10.0.0.2"));
    list.extend(started(&format!("web__0__b__{}", U1_TEXT), "10.0.0.3"));
    let pod = instance_from(1, 0, "n", hashes(), list);
    let cleanup = rollout::cleanup_pod(&pod, "web");
    assert_eq!(cleanup.stop, vec![format!("web__0__app__{}", U1_TEXT)]);
    assert!(cleanup.network.is_none());
    let empty = instance_from(1, 0, "n", hashes(), vec![]);
    assert_eq!(rollout::cleanup_pod(&empty, "web").network, Some(s("web__")));
}

#[test]
fn new_pods_are_awaited_until_the_timeout() {
    assert_eq!(await_new_pods(0, 10, None), ReadyStep::Check);
    assert_eq!(await_new_pods(10, 10, None), ReadyStep::Proceed);
    assert_eq!(await_new_pods(11, 10, Some(false)), ReadyStep::CheckAfter(1_000_000_000));
    assert_eq!(await_new_pods(0, 10, Some(true)), ReadyStep::Proceed);
}

#[test]
fn pods_can_be_replaced_one_by_one() {
    let mut store = store_with(vec![1]);
    assert_eq!(one_by_one::pods_to_replace(&store, "web").unwrap(), vec![1]);
    assert_eq!(
        one_by_one::pods_to_replace(&store, "api").unwrap_err(),
        one_by_one::RolloutError::ServiceNotFound
    );
    let name = format!("web__1__app__{}", U2_TEXT);
    let list =
        one_by_one::add_replacement(&mut store, "web", 3, hashes(), started(&name, "10.0.0.2"))
            .unwrap()
            .unwrap();
    assert_eq!(list[0].proxy_key, "web__30080");
    assert_eq!(store["web"][&2].network, format!("web__{}", U2_TEXT));
    assert!(one_by_one::drop_old_pod(&mut store, "web", 1).is_ok());
    assert_eq!(pod_count(&store, "web"), 1);
    assert!(one_by_one::drop_old_pod(&mut store, "api", 1).is_err());
    let none = one_by_one::add_replacement(&mut store, "web", 3, hashes(), vec![]).unwrap();
    assert!(none.is_none());
    assert_eq!(
        one_by_one::add_replacement(&mut store, "api", 3, hashes(), started(&name, "x")).unwrap_err(),
        one_by_one::RolloutError::ServiceNotFound
    );
    assert!(matches!(
        one_by_one::add_replacement(&mut store, "web", 3, hashes(), started("junk", "x")),
        Err(one_by_one::RolloutError::UnreadableName(_))
    ));
}

#[test]
fn thresholds_alone_grow_and_shrink_a_service() {
    let count = InstanceCount { min: 1, max: 3 };
    let pods = HashMap::from([(1, pod(30.0)), (2, pod(10.0))]);
    let step = |current, load| scale::threshold_step(&count, current, load, &pods);
    assert_eq!(step(2, true), scale::ThresholdStep::Grow);
    assert_eq!(step(0, false), scale::ThresholdStep::Grow);
    assert_eq!(step(3, true), scale::ThresholdStep::Stay);
    assert_eq!(step(1, false), scale::ThresholdStep::Stay);
    assert_eq!(step(2, false), scale::ThresholdStep::Shrink(2));
    let unmeasured = scale::threshold_step(&count, 2, false, &HashMap::new());
    assert_eq!(unmeasured, scale::ThresholdStep::Stay);

    let thresholds = ResourceThresholds {
        cpu_percentage: Some(20),
        cpu_percentage_relative: None,
        memory_percentage: None,
        metrics_strategy: PodMetricsStrategy::Maximum,
    };
    assert!(!scale::should_scale(&thresholds, &pods));
    let busy = HashMap::from([(1, pod(30.0)), (2, pod(10.0)), (3, pod(21.0)), (4, pod(25.0))]);
    assert!(scale::should_scale(&thresholds, &busy));
    assert!(!scale::should_scale(&thresholds, &HashMap::new()));
    let patient = ResourceThresholds {
        cpu_percentage: Some(40),
        ..thresholds
    };
    assert!(!scale::should_scale(&patient, &busy));
    let unread = HashMap::from([(1, pod(f64::NAN)), (2, pod(10.0))]);
    assert_eq!(
        scale::threshold_step(&count, 2, true, &unread),
        scale::ThresholdStep::Grow
    );
    let alone = HashMap::from([(1, pod(f64::NAN))]);
    assert_eq!(
        scale::threshold_step(&count, 2, false, &alone),
        scale::ThresholdStep::Shrink(1)
    );
}

#[test]
fn pods_that_lost_a_container_are_removed_and_replaced() {
    let mut store = store_with(vec![1, 2, 3]);
    let down = scale::missing_pod(&store["web"][&1], "web");
    assert_eq!(down.endpoints[0].proxy_key, "web__30080");
    assert_eq!(down.network, Some(s("web_net")));
    assert_eq!(scale::remove_missing_pods(&mut store, "web", &vec![1, 3, 9]), Some(1));
    assert_eq!(scale::remove_missing_pods(&mut store, "api", &vec![1]), None);
    let count = InstanceCount { min: 2, max: 3 };
    assert!(scale::replacement_due(1, &count));
    assert!(!scale::replacement_due(2, &count));
    assert!(scale::scale_down(&store, "web", 2, &service(1, 3)).is_none());
    let plan = scale::scale_down(&store, "web", 2, &service(0, 3)).unwrap();
    assert_eq!(plan.endpoints[0].proxy_key, "web__30080");
    let name = format!("web__0__app__{}", U1_TEXT);
    let list = scale::scale_up(&mut store, "web", 8, started(&name, "10.0.0.8")).unwrap();
    assert_eq!(list[0].proxy_key, "web__30080");
    assert_eq!(store["web"][&1].network, format!("web__{}", U1_TEXT));
    assert!(scale::scale_up(&mut store, "api", 8, started(&name, "10.0.0.8")).is_ok());
    assert!(!store.contains_key("api"));
    assert!(scale::scale_up(&mut store, "web", 8, started("junk", "10.0.0.8")).is_err());
}

#[test]
fn a_threshold_round_clears_missing_pods_before_it_decides() {
    let (mut task, _) = ThresholdTask::new(s("web"));
    let count = InstanceCount { min: 2, max: 3 };
    let pods = vec![names(1, vec!["a", "b"]), names(2, vec!["c"])];
    let action = task.on_event(ThresholdEvent::Snapshot(count, pods));
    assert!(matches!(action, ThresholdAction::Inspect(n) if n == "a"));
    let gone = ThresholdEvent::Inspected(Inspection::Failed(s("404")));
    assert!(matches!(task.on_event(gone), ThresholdAction::Withdraw(1)));
    let action = task.on_event(ThresholdEvent::Withdrawn);
    assert!(matches!(action, ThresholdAction::Inspect(n) if n == "c"));
    let read = ThresholdEvent::Inspected(Inspection::Stats(Arc::new(reading(1.0, 1))));
    assert!(matches!(task.on_event(read), ThresholdAction::Aggregate(2)));
    assert_eq!(task.readings().unwrap().len(), 1);
    let action = task.on_event(ThresholdEvent::Aggregated(pod(1.0)));
    assert!(matches!(action, ThresholdAction::Clear));
    assert_eq!(task.missing(), &vec![1]);
    let action = task.on_event(ThresholdEvent::Cleared(Some(1)));
    assert!(matches!(action, ThresholdAction::StartPod));
    let action = task.on_event(ThresholdEvent::Started);
    assert!(matches!(action, ThresholdAction::RefreshProxies));
    let action = task.on_event(ThresholdEvent::Refreshed);
    assert!(matches!(action, ThresholdAction::Evaluate));
    assert_eq!(task.measured().len(), 1);
    let action = task.on_event(ThresholdEvent::Evaluated(false));
    assert!(matches!(action, ThresholdAction::Wait(_)));
    assert!(matches!(task.on_event(ThresholdEvent::Elapsed), ThresholdAction::LookUp));
    let action = task.on_event(ThresholdEvent::NoThresholds);
    assert!(matches!(action, ThresholdAction::Wait(_)));
}

#[test]
fn a_threshold_round_shrinks_by_the_least_used_pod() {
    let (mut task, _) = ThresholdTask::new(s("web"));
    let count = InstanceCount { min: 1, max: 3 };
    task.on_event(ThresholdEvent::Snapshot(count, vec![names(1, vec!["a"]), names(2, vec!["b"])]));
    for cpu in [9.0, 3.0] {
        let read = ThresholdEvent::Inspected(Inspection::Stats(Arc::new(reading(cpu, 1))));
        task.on_event(read);
        task.on_event(ThresholdEvent::Aggregated(pod(cpu)));
    }
    let action = task.on_event(ThresholdEvent::Evaluated(false));
    assert!(matches!(action, ThresholdAction::TakeAway(2)));
    let action = task.on_event(ThresholdEvent::TakenAway);
    assert!(matches!(action, ThresholdAction::RefreshProxies));
    assert!(matches!(task.on_event(ThresholdEvent::Refreshed), ThresholdAction::Wait(_)));
    let told = ThresholdEvent::Message(s("web"), ScaleMessage::ConfigUpdate);
    assert!(matches!(task.on_event(told), ThresholdAction::Wait(_)));
    let told = ThresholdEvent::Message(s("web"), ScaleMessage::Resume);
    assert!(matches!(task.on_event(told), ThresholdAction::LookUp));
    assert!(matches!(task.on_event(ThresholdEvent::Gone), ThresholdAction::Stop));
}

#[test]
fn containers_and_applications_are_awaited() {
    const SEC: u128 = 1_000_000_000;
    assert_eq!(wait_for_container_health(1, true), WaitStep::Ready);
    assert_eq!(wait_for_container_health(29, false), WaitStep::TryAfter(SEC));
    assert_eq!(wait_for_container_health(30, false), WaitStep::GiveUpAfter(SEC));
    assert_eq!(check_application_readiness(0, 5, None), ReadinessStep::Connect);
    assert_eq!(check_application_readiness(5, 5, None), ReadinessStep::GiveUp);
    assert_eq!(check_application_readiness(9, 5, Some(true)), ReadinessStep::Ready);
    assert_eq!(check_application_readiness(4, 5, Some(false)), ReadinessStep::ConnectAfter(SEC));
    assert_eq!(check_application_readiness(5, 5, Some(false)), ReadinessStep::GiveUp);
}
