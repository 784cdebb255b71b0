use orbit::api::status as current;
use orbit::config::store::{new_config_store, store_config};
use orbit::config::{InstanceCount, ServiceConfig, ServiceSpec};
use orbit::container::health::config::{
    default_liveness_period, default_liveness_threshold, default_startup_threshold,
    default_startup_timeout, default_tcp_period, default_tcp_threshold, default_tcp_timeout,
    HealthCheckConfig,
};
use orbit::container::health::{
    forget_containers, get_container_health, initialize_health_monitoring, new_health_store,
    ContainerHealthState, HealthState, MonitorStep, Probe,
};
use orbit::container::lifecycle::{insert_pod, instance_from, new_instance_store};
use orbit::container::runtimes::start::StartedContainer;
use orbit::container::stats::{ServiceStats, ServiceStatsStore};
use orbit::container::volumes::{
    attach_volume, create_named_volume, detach_volume, forget_volume, insert_volume,
    new_volume_store, remove_named_volume, volume_record, VolumeError,
};
use orbit::container::{
    Container, ContainerPort, ContainerPortMetadata, ContainerStats, InstanceStore,
};
use orbit::level::Level;
use orbit::logger::{get_log_level, level_named, LogLevel};
use orbit::metrics::volumes::update_volume_size;
use orbit::metrics::{
    count_totals, process_metrics_update, Metric, MetricChange, MetricsUpdate,
};
use orbit::proxy::new_backends;
use orbit::status as cached;
use std::collections::HashMap;
use std::sync::Arc;

fn s(text: &str) -> String {
    text.to_string()
}

fn level(f: f64) -> Level {
    Level { bits: f.to_bits() }
}

#[test]
fn health_checks_have_defaults() {
    const SEC: u128 = 1_000_000_000;
    let config = HealthCheckConfig::default();
    assert_eq!(config.startup_timeout, 30 * SEC);
    assert_eq!(config.startup_timeout, default_startup_timeout());
    assert_eq!(config.startup_failure_threshold, default_startup_threshold());
    assert_eq!(config.liveness_period, default_liveness_period());
    assert_eq!(config.liveness_failure_threshold, default_liveness_threshold());
    assert!(config.tcp_check.is_none());
    assert_eq!((default_startup_threshold(), default_liveness_threshold()), (3, 3));
    assert_eq!(default_liveness_period(), 10 * SEC);
    assert_eq!((default_tcp_timeout(), default_tcp_period()), (5 * SEC, 10 * SEC));
    assert_eq!(default_tcp_threshold(), 3);
}

#[test]
fn transitions_keep_the_last_state() {
    let mut h = ContainerHealthState::starting_at(5);
    assert_eq!(h.state, HealthState::Starting);
    h.transition_to(HealthState::Healthy, Some(s("ok")), 7);
    assert_eq!(h.last_state, Some(HealthState::Starting));
    assert_eq!((h.state, h.last_transition), (HealthState::Healthy, 7));
    assert_eq!(h.message, Some(s("ok")));
    h.record_failure(9);
    assert_eq!((h.failure_count, h.last_failure), (1, Some(9)));
}

#[test]
fn a_container_is_unhealthy_after_three_failures_in_a_row() {
    let mut store = new_health_store();
    let mut m = initialize_health_monitoring(&mut store, "c", None, 1);
    assert!(m.checks_startup());
    assert!(m.startup_checked(&mut store, None, 2, 2));
    assert!(m.watched(&store));
    let wait = MonitorStep::Wait(10_000_000_000);
    assert_eq!(m.monitor_container_health(&mut store, Probe::Alive, 3, 3), wait);
    let state = |store: &_| get_container_health(store, "c").unwrap().state;
    assert_eq!(state(&store), HealthState::Healthy);
    for now in [4, 5] {
        assert_eq!(m.monitor_container_health(&mut store, Probe::Unreachable, now, now), wait);
        assert_eq!(state(&store), HealthState::Healthy);
    }
    assert_eq!(m.monitor_container_health(&mut store, Probe::Unreachable, 6, 6), wait);
    assert_eq!(state(&store), HealthState::Unhealthy);
    let health = get_container_health(&store, "c").unwrap();
    assert_eq!(health.message, Some(s("Health check failed")));
    assert_eq!(health.failure_count, 3);
    assert_eq!(m.monitor_container_health(&mut store, Probe::Alive, 7, 7), wait);
    assert_eq!(state(&store), HealthState::Healthy);
    assert_eq!(get_container_health(&store, "c").unwrap().message, None);
    for now in [8, 9] {
        let probe = Probe::InspectionFailed(s("gone"));
        assert_eq!(m.monitor_container_health(&mut store, probe, now, now), wait);
    }
    let probe = Probe::InspectionFailed(s("gone"));
    assert_eq!(
        m.monitor_container_health(&mut store, probe, 10, 10),
        MonitorStep::Stop
    );
    let health = get_container_health(&store, "c").unwrap();
    assert_eq!(health.state, HealthState::Failed);
    assert_eq!(health.message, Some(s("Container inspection failed: gone")));
}

#[test]
fn health_follows_a_sequence_of_checks() {
    let config = HealthCheckConfig {
        liveness_failure_threshold: 2,
        ..HealthCheckConfig::default()
    };
    for checks in 0u32..64 {
        let mut store = new_health_store();
        let mut m = initialize_health_monitoring(&mut store, "c", Some(config), 1);
        let answers: Vec<bool> = (0..6).map(|i| checks >> i & 1 == 1).collect();
        let mut expected = HealthState::Starting;
        for (i, alive) in answers.iter().enumerate() {
            let probe = if *alive { Probe::Alive } else { Probe::Unreachable };
            m.monitor_container_health(&mut store, probe, i as u128, i as u128);
            if *alive {
                expected = HealthState::Healthy;
            } else if i > 0 && !answers[i - 1] {
                expected = HealthState::Unhealthy;
            }
            assert_eq!(get_container_health(&store, "c").unwrap().state, expected);
        }
        let failures = answers.iter().filter(|a| !**a).count() as u32;
        assert_eq!(get_container_health(&store, "c").unwrap().failure_count, failures);
    }
}

#[test]
fn a_container_that_does_not_start_has_failed() {
    let mut store = new_health_store();
    let m = initialize_health_monitoring(&mut store, "c", None, 1);
    assert!(!m.startup_checked(&mut store, Some(s("no image")), 2, 3));
    let health = get_container_health(&store, "c").unwrap();
    assert_eq!(health.state, HealthState::Failed);
    assert_eq!(health.message, Some(s("Startup failed: no image")));
    assert_eq!((health.failure_count, health.last_transition), (1, 3));
}

#[test]
fn the_watch_ends_with_the_record() {
    let mut store = new_health_store();
    let mut m = initialize_health_monitoring(&mut store, "c", None, 1);
    let _ = initialize_health_monitoring(&mut store, "d", None, 1);
    forget_containers(&mut store, &vec![s("c"), s("x")]);
    assert!(!m.watched(&store));
    assert!(get_container_health(&store, "d").is_some());
    assert_eq!(
        m.monitor_container_health(&mut store, Probe::Alive, 2, 2),
        MonitorStep::Stop
    );
    assert!(get_container_health(&store, "c").is_none());
}

#[test]
fn volumes_are_created_once_and_removed_when_unused() {
    let mut store = new_volume_store();
    let labels = Some([(s("environment"), s("prod"))].into_iter().collect());
    let m = volume_record(&store, "data", 7, 9, "/v/data", labels).unwrap();
    assert_eq!((m.name.as_str(), m.id, m.created_at), ("data", 7, 9));
    assert_eq!(m.labels.as_ref().unwrap()["environment"], "prod");
    insert_volume(&mut store, "data", m);
    let other = create_named_volume(&store, "logs", 9, "/v/logs", None).unwrap();
    assert_eq!((other.id >> 76) & 0xf, 4);
    assert_eq!(other.path, "/v/logs");
    let e = create_named_volume(&store, "data", 9, "/v/data", None).unwrap_err();
    assert_eq!(e.message("data"), "Volume data already exists");

    assert_eq!(attach_volume(&mut store, "data", "c1"), Ok(true));
    assert_eq!(attach_volume(&mut store, "data", "c1"), Ok(false));
    assert_eq!(attach_volume(&mut store, "data", "c2"), Ok(true));
    assert_eq!(store["data"].used_by, vec!["c1", "c2"]);
    assert_eq!(attach_volume(&mut store, "none", "c1"), Err(VolumeError::NotFound));
    let e = remove_named_volume(&store, "data", false).unwrap_err();
    assert_eq!(e.message("data"), "Volume data is still in use");
    assert_eq!(remove_named_volume(&store, "data", true).unwrap(), Some(s("/v/data")));
    assert_eq!(remove_named_volume(&store, "none", false).unwrap(), None);
    assert_eq!(detach_volume(&mut store, "data", "c1"), Ok(()));
    assert_eq!(store["data"].used_by, vec!["c2"]);
    assert_eq!(detach_volume(&mut store, "data", "c2"), Ok(()));
    assert_eq!(detach_volume(&mut store, "none", "c2"), Err(VolumeError::NotFound));
    assert_eq!(VolumeError::NotFound.message("none"), "Volume none not found");
    assert_eq!(remove_named_volume(&store, "data", false).unwrap(), Some(s("/v/data")));

    let usage = update_volume_size(&mut store, "data", &vec![1, 2, 3]).unwrap();
    assert_eq!((usage.size, usage.containers), (6, 0));
    assert_eq!(store["data"].size, Some(6));
    assert!(update_volume_size(&mut store, "none", &vec![]).is_err());
    forget_volume(&mut store, "data");
    assert!(store.is_empty());
}

fn service(name: &str) -> ServiceConfig {
    ServiceConfig {
        name: s(name),
        network: None,
        spec: ServiceSpec {
            containers: vec![Container {
                name: s("app"),
                image: s("nginx"),
                command: None,
                ports: Some(vec![
                    ContainerPort {
                        port: 80,
                        target_port: None,
                        node_port: Some(30080),
                        protocol: None,
                    },
                    ContainerPort {
                        port: 81,
                        target_port: Some(8081),
                        node_port: None,
                        protocol: None,
                    },
                ]),
                volume_mounts: None,
                volumes: None,
                memory_limit: None,
                cpu_limit: None,
                network_limit: None,
                resource_thresholds: None,
                health_check: None,
            }],
        },
        volumes: None,
        memory_limit: None,
        cpu_limit: None,
        resource_thresholds: None,
        codel: None,
        scaling_policy: None,
        instance_count: InstanceCount { min: 1, max: 3 },
        adopt_orphans: false,
        interval_seconds: None,
        image_check_interval: None,
        rolling_update_config: None,
    }
}

fn meta(port: u16, target_port: Option<u16>, node_port: Option<u16>) -> ContainerPortMetadata {
    ContainerPortMetadata {
        port,
        target_port,
        node_port,
    }
}

fn instances() -> InstanceStore {
    let mut store = new_instance_store();
    let started = |name: &str, ip: &str, ports| StartedContainer {
        name: s(name),
        ip: s(ip),
        ports,
    };
    let containers = vec![
        started(
            "front",
            "172.17.0.2",
            vec![meta(80, None, Some(30080)), meta(81, Some(8081), None)],
        ),
        started("back", "172.17.0.3", vec![meta(5432, None, None)]),
        started("bare", "172.17.0.4", vec![]),
        started("late", "172.17.0.5", vec![meta(80, None, Some(30081))]),
    ];
    let pod = instance_from(1, 0, "net", Default::default(), containers);
    insert_pod(&mut store, "web", pod);
    let other = instance_from(2, 0, "net", Default::default(), vec![]);
    insert_pod(&mut store, "undefined", other);
    store
}

fn stats() -> ServiceStatsStore {
    let mut stats = ServiceStats::new();
    stats.update_stats(
        "front",
        Arc::new(ContainerStats {
            id: s("id"),
            ip_address: s(""),
            cpu_percentage: level(0.5),
            cpu_percentage_relative: level(25.0),
            memory_usage: 52428800,
            memory_limit: 268435456,
            port_mappings: HashMap::new(),
            network_rx_bytes: 0,
            network_tx_bytes: 0,
            network_rx_rate: level(0.0),
            network_tx_rate: level(0.0),
            timestamp: 0,
        }),
    );
    [(s("web"), stats)].into_iter().collect()
}

#[test]
fn the_status_reports_every_service() {
    let mut configs = new_config_store();
    store_config(&mut configs, "web.yml", service("web"));
    store_config(&mut configs, "idle.yml", service("idle"));
    let mut backends = new_backends();
    let behind = [s("172.17.0.2:80")].into_iter().collect();
    backends.insert(s("web__30080"), behind);
    let mut health = new_health_store();
    let _ = initialize_health_monitoring(&mut health, "front", None, 4);
    let report = current::get_status(&instances(), &configs, &backends, &stats(), &health);
    assert_eq!(report.len(), 1);
    let web = &report[0];
    assert_eq!(web.service_name, "web");
    assert_eq!(web.service_ports, vec![80, 81]);
    assert_eq!(web.service_urls.len(), 1);
    assert_eq!(web.service_urls[0].url, "http://localhost:30080");
    assert_eq!(web.pods[0].uuid, 1);
    let [front, back, bare, late] = &web.pods[0].containers[..] else {
        panic!("four containers");
    };
    assert_eq!(front.status, "running");
    assert!(front.ports[0].healthy && front.ports[1].healthy);
    assert_eq!(front.cpu_percentage, Some(level(0.5)));
    assert_eq!(front.memory_usage, Some(52428800));
    assert_eq!(front.urls[0].url, "http://172.17.0.2:80");
    assert_eq!(front.urls[0].target_url, None);
    assert_eq!(front.urls[1].target_url, Some(s("http://172.17.0.2:8081")));
    assert_eq!(front.health_status.as_ref().unwrap().state, HealthState::Starting);
    assert_eq!(back.status, "running");
    assert!(!back.ports[0].healthy);
    assert_eq!(back.memory_usage, None);
    assert!(back.health_status.is_none());
    assert_eq!(bare.status, "stopped");
    assert_eq!(late.status, "stopped");
    assert!(!late.ports[0].healthy);
}

#[test]
fn the_cached_status_looks_on_the_local_host() {
    let mut configs = new_config_store();
    store_config(&mut configs, "web.yml", service("web"));
    let mut backends = new_backends();
    let behind = [s("127.0.0.1:80")].into_iter().collect();
    backends.insert(s("web__30080"), behind);
    let cache = cached::update_instance_store_cache(&instances());
    assert_eq!(cache.len(), 2);
    assert_eq!(cache["web"][&1].containers[0].ports.len(), 2);
    let report = cached::get_status(&cache, &configs, &backends, &stats());
    assert_eq!(report.len(), 1);
    assert_eq!(report[0].service_ports, vec![80, 81]);
    let containers = &report[0].pods[0].containers;
    assert_eq!(containers[0].status, "running");
    assert!(containers[0].ports[0].healthy && !containers[0].ports[1].healthy);
    assert_eq!(containers[0].memory_limit, Some(268435456));
    assert_eq!(containers[1].status, "unknown");
}

#[test]
fn updates_become_changes_of_metrics() {
    let a = process_metrics_update(MetricsUpdate::TotalServices(3));
    assert_eq!((a.metric, a.change), (Metric::ServicesTotal, MetricChange::SetTo(3)));
    assert!(a.labels.is_empty());
    let a = process_metrics_update(MetricsUpdate::TotalInstances(9));
    assert_eq!((a.metric, a.change), (Metric::InstancesTotal, MetricChange::SetTo(9)));
    let a = process_metrics_update(MetricsUpdate::ConfigReload);
    assert_eq!((a.metric, a.change), (Metric::ConfigReloads, MetricChange::Increment));
    let a = process_metrics_update(MetricsUpdate::ServiceInstances(s("web"), 2));
    assert_eq!((a.metric, a.change), (Metric::ServiceInstances, MetricChange::SetTo(2)));
    assert_eq!(a.labels, vec!["web"]);
    let a = process_metrics_update(MetricsUpdate::Request(s("web"), 503));
    assert_eq!((a.metric, a.change), (Metric::ServiceRequests, MetricChange::Increment));
    assert_eq!(a.labels, vec!["web", "503"]);
    let a = process_metrics_update(MetricsUpdate::RequestDuration(s("web"), 200, level(0.25)));
    assert_eq!(
        (a.metric, a.change),
        (Metric::ServiceRequestDuration, MetricChange::Observe(level(0.25)))
    );
    assert_eq!(a.labels, vec!["web", "200"]);
}

#[test]
fn services_and_pods_are_counted() {
    assert_eq!(count_totals(&new_instance_store()), (0, 0));
    assert_eq!(count_totals(&instances()), (2, 2));
}

#[test]
fn log_levels_go_by_name() {
    assert_eq!(get_log_level("debug", None), LogLevel::Debug);
    assert_eq!(get_log_level("Warning", Some("ERROR")), LogLevel::Warning);
    assert_eq!(get_log_level("", Some("error")), LogLevel::Error);
    assert_eq!(get_log_level("", None), LogLevel::Info);
    assert_eq!(get_log_level("", Some("")), LogLevel::Info);
    assert_eq!(get_log_level("trace", None), LogLevel::Trace);
    assert_eq!(get_log_level("CRITICAL", None), LogLevel::Critical);
    assert_eq!(get_log_level("warn", None), LogLevel::Info);
    assert_eq!(level_named("debug"), LogLevel::Info);
}
