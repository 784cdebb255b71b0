use orbit::config::events::{
    config_update_steps, handle_config_update, is_yaml_path, load_config, process_event, sweep,
    tracked_paths, wants_event, EventPath, FileEvent, PathCheck, PathStep, TaskNames,
};
use orbit::config::orphans::{
    adopt_pod, adopted_container, handle_orphans, open_record, orphan_ports, OrphanPlan,
};
use orbit::config::store::{new_config_store, store_config, ConfigStore};
use orbit::config::utils::{get_config_by_path, get_config_by_service, parse_container_name};
use orbit::config::validate::{
    check_container_name_uniqueness, check_port_conflicts, check_service_name_uniqueness,
    validate_container_name, validate_service_name, validate_service_ports,
    ConfigValidationError, PortValidationError,
};
use orbit::config::{InstanceCount, ScaleMessage, ServiceConfig, ServiceSpec};
use orbit::container::lifecycle::new_instance_store;
use orbit::container::{Container, ContainerInfo, ContainerPort, ContainerStats};
use orbit::level::Level;
use std::collections::HashMap;

fn port(port: u16, target_port: Option<u16>, node_port: Option<u16>) -> ContainerPort {
    ContainerPort {
        port,
        target_port,
        node_port,
        protocol: None,
    }
}

fn container(name: &str, ports: Vec<ContainerPort>) -> Container {
    Container {
        name: name.to_string(),
        image: "nginx".to_string(),
        command: None,
        ports: Some(ports),
        volume_mounts: None,
        volumes: None,
        memory_limit: None,
        cpu_limit: None,
        network_limit: None,
        resource_thresholds: None,
        health_check: None,
    }
}

fn service(name: &str, containers: Vec<Container>) -> ServiceConfig {
    ServiceConfig {
        name: name.to_string(),
        network: None,
        spec: ServiceSpec { containers },
        volumes: None,
        memory_limit: None,
        cpu_limit: None,
        resource_thresholds: None,
        codel: None,
        scaling_policy: None,
        instance_count: InstanceCount { min: 1, max: 3 },
        adopt_orphans: true,
        interval_seconds: None,
        image_check_interval: None,
        rolling_update_config: None,
    }
}

fn store(configs: Vec<(&str, ServiceConfig)>) -> ConfigStore {
    let mut m = new_config_store();
    for (path, config) in configs {
        store_config(&mut m, path, config);
    }
    m
}

#[test]
fn ports_may_be_claimed_once_in_a_service() {
    let ok = service(
        "web",
        vec![
            container("a", vec![port(80, Some(8080), Some(30080)), port(80, None, None)]),
            container("b", vec![port(80, Some(8081), None)]),
        ],
    );
    assert!(validate_service_ports(&ok).is_ok());

    let target = service(
        "web",
        vec![
            container("a", vec![port(80, Some(8080), None)]),
            container("b", vec![port(81, Some(8080), None)]),
        ],
    );
    let e = validate_service_ports(&target).unwrap_err();
    assert_eq!(e.message(), "Duplicate target port 8080 found in service 'web'");

    let same_entry = service("web", vec![container("a", vec![port(80, Some(9000), Some(9000))])]);
    let e = validate_service_ports(&same_entry).unwrap_err();
    assert_eq!(e.message(), "Duplicate node port 9000 found in service 'web'");

    let cross = service(
        "web",
        vec![container("a", vec![port(80, None, Some(9000)), port(81, Some(9000), None)])],
    );
    assert!(matches!(
        validate_service_ports(&cross).unwrap_err(),
        PortValidationError::DuplicatePortInService { port_type, port: 9000, .. } if port_type == "target"
    ));
}

#[test]
fn ports_may_not_be_claimed_by_two_services() {
    let m = store(vec![
        ("a.yml", service("api", vec![container("c", vec![port(80, None, Some(30080))])])),
        ("b.yml", service("db", vec![container("c", vec![port(81, Some(5432), None)])])),
    ]);
    let clash = service("web", vec![container("c", vec![port(80, Some(30080), None)])]);
    let e = check_port_conflicts(&clash, &m, None).unwrap_err();
    assert_eq!(
        e.message(),
        "node port 30080 in service 'web' conflicts with service 'api'"
    );
    assert!(check_port_conflicts(&clash, &m, Some("api")).is_ok());
    let itself = service("api", vec![container("c", vec![port(80, Some(30080), None)])]);
    assert!(check_port_conflicts(&itself, &m, None).is_ok());
    let free = service("web", vec![container("c", vec![port(80, Some(1234), None)])]);
    assert!(check_port_conflicts(&free, &m, None).is_ok());
}

#[test]
fn names_must_be_dns_labels() {
    for name in ["a", "7", "web", "a1", "web-service-2", &"x".repeat(63), "0-0"] {
        assert!(validate_service_name(name).is_ok(), "{}", name);
        assert!(validate_container_name(name).is_ok(), "{}", name);
    }
    for name in ["", "-", "A", "-web", "web-", "Web", "we_b", "wéb", "a b", &"x".repeat(64), "ab\n"] {
        assert!(validate_service_name(name).is_err(), "{:?}", name);
        assert!(validate_container_name(name).is_err(), "{:?}", name);
    }
    assert_eq!(
        validate_service_name("X").unwrap_err().message(),
        "Invalid service name 'X': Service name must be a valid DNS label: lowercase alphanumeric characters or '-', starting and ending with alphanumeric"
    );
    assert_eq!(
        validate_container_name("X").unwrap_err().message(),
        "Invalid container name 'X': Container name must be a valid DNS label: lowercase alphanumeric characters or '-', starting and ending with alphanumeric"
    );
}

#[test]
fn service_names_are_unique() {
    let m = store(vec![("a.yml", service("web", vec![]))]);
    let e = check_service_name_uniqueness(&service("web", vec![]), &m, None).unwrap_err();
    assert_eq!(e.message(), "Duplicate service name 'web' found");
    assert!(check_service_name_uniqueness(&service("web", vec![]), &m, Some("api")).is_err());
    assert!(check_service_name_uniqueness(&service("web", vec![]), &m, Some("web")).is_ok());
    assert!(check_service_name_uniqueness(&service("api", vec![]), &m, None).is_ok());
}

#[test]
fn container_names_are_unique_and_valid() {
    let names = |list: Vec<&str>| {
        let containers = list.into_iter().map(|n| container(n, vec![])).collect();
        check_container_name_uniqueness(&service("web", containers))
    };
    assert!(names(vec!["ab", "cd"]).is_ok());
    assert_eq!(
        names(vec!["ab", "ab"]).unwrap_err().message(),
        "Duplicate container name 'ab' found in service 'web'"
    );
    assert!(matches!(
        names(vec!["Bad", "Bad"]).unwrap_err(),
        ConfigValidationError::InvalidContainerName(n, _) if n == "Bad"
    ));
}

#[test]
fn definitions_are_found_by_path_and_by_service() {
    let m = store(vec![("a.yml", service("web", vec![])), ("b.yml", service("api", vec![]))]);
    assert_eq!(get_config_by_path(&m, "b.yml").unwrap().config.name, "api");
    assert!(get_config_by_path(&m, "c.yml").is_none());
    assert_eq!(get_config_by_service(&m, "web").unwrap().path, "a.yml");
    assert!(get_config_by_service(&m, "db").is_none());
    let mut paths = tracked_paths(&m);
    paths.sort();
    assert_eq!(paths, vec!["a.yml", "b.yml"]);
}

#[test]
fn only_yaml_events_are_of_interest() {
    let ext = |e: &str| Some(e.to_string());
    assert!(wants_event(FileEvent::Create, &vec![ext("txt"), ext("yml")]));
    assert!(wants_event(FileEvent::Remove, &vec![ext("yaml")]));
    assert!(!wants_event(FileEvent::Other, &vec![ext("yaml")]));
    assert!(!wants_event(FileEvent::Modify, &vec![ext("YML"), None]));
    assert!(is_yaml_path("/x/a.yml"));
    assert!(is_yaml_path(".yaml"));
    assert!(!is_yaml_path("/x/a.yml.bak"));
    assert!(!is_yaml_path("yml"));
}

#[test]
fn files_that_come_are_loaded_and_files_that_go_take_their_service_down() {
    let mut m = store(vec![("a.yml", service("web", vec![]))]);
    let mut tasks = TaskNames::default();
    tasks.insert("web".to_string());
    let at = |path: &str, extension: Option<&str>, is_file: bool| EventPath {
        path: path.to_string(),
        extension: extension.map(|e| e.to_string()),
        is_file,
    };
    let step = process_event(&mut m, &mut tasks, FileEvent::Create, &at("b.yml", Some("yml"), true));
    assert!(matches!(step, PathStep::Load));
    let step = process_event(&mut m, &mut tasks, FileEvent::Modify, &at("b", None, true));
    assert!(matches!(step, PathStep::Load));
    let step = process_event(&mut m, &mut tasks, FileEvent::Modify, &at("b.txt", Some("txt"), true));
    assert!(matches!(step, PathStep::Ignore));
    let step = process_event(&mut m, &mut tasks, FileEvent::Create, &at("b.yml", Some("yml"), false));
    assert!(matches!(step, PathStep::Ignore));
    let step = process_event(&mut m, &mut tasks, FileEvent::Remove, &at("c.yml", Some("yml"), false));
    assert!(matches!(step, PathStep::Ignore));
    let step = process_event(&mut m, &mut tasks, FileEvent::Remove, &at("a.yml", Some("yml"), false));
    assert!(matches!(step, PathStep::TakeDown(n) if n == "web"));
    assert!(tasks.is_empty());
    assert!(get_config_by_path(&m, "a.yml").is_none());
    let step = process_event(&mut m, &mut tasks, FileEvent::Other, &at("a.yml", Some("yml"), true));
    assert!(matches!(step, PathStep::Ignore));
}

#[test]
fn a_sweep_leaves_what_is_valid() {
    let mut m = store(vec![
        ("a.yml", service("web", vec![])),
        ("b.yml", service("api", vec![])),
        ("c.txt", service("db", vec![])),
    ]);
    let check = |path: &str, exists: bool, e: &str| PathCheck {
        path: path.to_string(),
        exists,
        extension: Some(e.to_string()),
    };
    let mut tasks: TaskNames =
        ["web", "api", "db", "old"].into_iter().map(|n| n.to_string()).collect();
    let gone = sweep(
        &mut m,
        &mut tasks,
        &vec![
            check("a.yml", true, "yml"),
            check("b.yml", false, "yml"),
            check("c.txt", true, "txt"),
            check("d.yml", false, "yml"),
        ],
    );
    assert_eq!(gone, vec!["api", "db"]);
    assert_eq!(tracked_paths(&m), vec!["a.yml"]);
    assert_eq!(tasks.len(), 2);
    assert!(tasks.contains("web") && tasks.contains("old"));
}

#[test]
fn a_whole_event_leaves_the_definitions_that_are_there() {
    let mut m = store(vec![("a.yml", service("web", vec![])), ("b.yml", service("api", vec![]))]);
    let mut tasks: TaskNames = ["web", "api"].into_iter().map(|n| n.to_string()).collect();
    let path = EventPath {
        path: "a.yml".to_string(),
        extension: Some("yml".to_string()),
        is_file: true,
    };
    let step = process_event(&mut m, &mut tasks, FileEvent::Modify, &path);
    assert!(matches!(step, PathStep::Load));
    let mut changed = service("shop", vec![]);
    changed.instance_count = InstanceCount { min: 2, max: 5 };
    load_config(&mut m, &mut tasks, "a.yml", changed);
    let checks = tracked_paths(&m)
        .into_iter()
        .map(|path| PathCheck {
            exists: path == "a.yml",
            extension: Some("yml".to_string()),
            path,
        })
        .collect();
    assert_eq!(sweep(&mut m, &mut tasks, &checks), vec!["api"]);
    assert_eq!(tracked_paths(&m), vec!["a.yml"]);
    let found = get_config_by_path(&m, "a.yml").unwrap();
    assert_eq!((found.config.name.as_str(), found.config.instance_count.max), ("shop", 5));
    assert_eq!(found.path, "a.yml");
    assert!(tasks.contains("shop") && !tasks.contains("api"));
}

#[test]
fn a_changed_definition_replaces_the_one_in_force() {
    let mut m = store(vec![("a.yml", service("web", vec![])), ("b.yml", service("api", vec![]))]);
    let mut changed = service("web", vec![]);
    changed.instance_count = InstanceCount { min: 2, max: 5 };
    handle_config_update(&mut m, "web", changed);
    let found = get_config_by_service(&m, "web").unwrap();
    assert_eq!(found.config.instance_count.max, 5);
    assert_eq!(found.path, "a.yml");
    handle_config_update(&mut m, "db", service("db", vec![]));
    assert!(get_config_by_service(&m, "db").is_none());

    let known = config_update_steps(true);
    assert!(!known.start_task);
    assert_eq!(known.before, Some(ScaleMessage::ConfigUpdate));
    assert_eq!(known.after, Some(ScaleMessage::Resume));
    let new = config_update_steps(false);
    assert!(new.start_task && new.before.is_none() && new.after.is_none());
}

const U1: &str = "00000000-0000-0000-0000-000000000001";
const U2: &str = "00000000-0000-0000-0000-000000000002";

fn listed(names: Vec<String>) -> Vec<ContainerInfo> {
    names
        .into_iter()
        .map(|name| ContainerInfo {
            id: String::new(),
            name,
            state: "running".to_string(),
            port: 0,
        })
        .collect()
}

#[test]
fn complete_pods_are_adopted_and_incomplete_ones_stopped() {
    let config = service("web", vec![container("aa", vec![]), container("bb", vec![])]);
    let names = vec![
        format!("web__0__aa__{}", U1),
        format!("web__1__aa__{}", U2),
        "stray".to_string(),
        format!("web__0__bb__{}", U1),
    ];
    match handle_orphans(&config, &listed(names.clone())) {
        OrphanPlan::Adopt { stop, pods } => {
            assert_eq!(stop, vec![names[1].clone()]);
            assert_eq!(pods.len(), 1);
            assert_eq!(pods[0].uuid, 1);
            assert_eq!(pods[0].containers, vec![names[0].clone(), names[3].clone()]);
        }
        other => panic!("{:?}", other),
    }
    assert!(matches!(handle_orphans(&config, &vec![]), OrphanPlan::Nothing));
    let mut refusing = service("web", vec![container("aa", vec![])]);
    refusing.adopt_orphans = false;
    match handle_orphans(&refusing, &listed(names.clone())) {
        OrphanPlan::StopAll(stop) => assert_eq!(stop, names),
        other => panic!("{:?}", other),
    }
}

#[test]
fn adopted_containers_keep_the_ports_that_are_mapped() {
    let zero = Level { bits: 0 };
    let stats = ContainerStats {
        id: String::new(),
        ip_address: "172.17.0.2".to_string(),
        cpu_percentage: zero,
        cpu_percentage_relative: zero,
        memory_usage: 0,
        memory_limit: 0,
        port_mappings: HashMap::from([(80, 49153), (9000, 49154)]),
        network_rx_bytes: 0,
        network_tx_bytes: 0,
        network_rx_rate: zero,
        network_tx_rate: zero,
        timestamp: 0,
    };
    let ports = vec![
        port(80, None, None),
        port(81, None, Some(30081)),
        port(82, Some(9000), Some(30082)),
    ];
    let c = adopted_container("web__0__aa__x", &ports, &stats).unwrap();
    assert_eq!(c.status, "adopted");
    let kept: Vec<_> = c.ports.iter().map(|p| (p.port, p.node_port)).collect();
    assert_eq!(kept, vec![(49153, Some(80))]);
    let mapped = adopted_container("x", &vec![port(9000, Some(82), Some(30082))], &stats).unwrap();
    assert_eq!((mapped.ports[0].port, mapped.ports[0].node_port), (49154, Some(30082)));
    assert!(adopted_container("x", &vec![port(81, None, None)], &stats).is_none());

    let config = service("web", vec![container("aa", ports)]);
    let parts = parse_container_name(&format!("web__0__aa__{}", U1)).unwrap();
    assert_eq!(orphan_ports(&parts, &config).unwrap().len(), 3);
    let other = parse_container_name(&format!("web__0__zz__{}", U1)).unwrap();
    assert!(orphan_ports(&other, &config).is_none());

    let mut store = new_instance_store();
    open_record(&mut store, "api");
    assert!(store["api"].is_empty() && !store.contains_key("web"));
    adopt_pod(&mut store, "web", 7, 99, vec![]);
    assert!(store["web"].is_empty());
    adopt_pod(&mut store, "web", 7, 99, vec![c]);
    assert_eq!(store["web"][&7].created_at, 99);
    assert_eq!(store["web"][&7].containers[0].status, "adopted");
    open_record(&mut store, "web");
    assert_eq!(store["web"].len(), 1);
}
