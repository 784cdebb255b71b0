use orbit::config::limits::EffectiveLimit;
use orbit::config::{InstanceCount, LimitValue, ServiceConfig, ServiceSpec};
use orbit::container::runtimes::docker::{
    choose_pod_network, network_rates, new_network_usage, prepare_network_limits,
    prepare_port_configuration, record_pod_network, remove_pod_network, setup_pod_network, setup_volume_mounts,
    start_containers, track_network_usage, untrack_network_usage, MountSource, PodNetwork,
    RetryStep,
};
use orbit::container::runtimes::files::{setup_container_volumes, FileMount};
use orbit::container::runtimes::inspect::{
    any_update, check_image_updates, collect_port_mappings, list_containers, name_filter,
    ListedContainer, PublishedPort,
};
use orbit::container::runtimes::start::{begin_pod, plan_container, PodStart, StartOutcome};
use orbit::container::runtimes::{runtime_kind, RuntimeKind};
use orbit::container::volumes::NamedVolume;
use orbit::container::{
    Container, ContainerPort, ContainerPortMetadata, NetworkLimit, VolumeData, VolumeMount,
};
use std::collections::HashMap;

fn s(text: &str) -> String {
    text.to_string()
}

fn container(name: &str) -> Container {
    Container {
        name: s(name),
        image: s("nginx:latest"),
        command: None,
        ports: None,
        volume_mounts: None,
        volumes: None,
        memory_limit: None,
        cpu_limit: None,
        network_limit: None,
        resource_thresholds: None,
        health_check: None,
    }
}

fn service() -> ServiceConfig {
    ServiceConfig {
        name: s("web"),
        network: None,
        spec: ServiceSpec { containers: vec![] },
        volumes: None,
        memory_limit: None,
        cpu_limit: None,
        resource_thresholds: None,
        codel: None,
        scaling_policy: None,
        instance_count: InstanceCount { min: 1, max: 3 },
        adopt_orphans: false,
        interval_seconds: None,
        image_check_interval: None,
        rolling_update_config: None,
    }
}

fn volume(host_path: Option<&str>, files: Option<Vec<(&str, &str)>>) -> VolumeData {
    VolumeData {
        files: files.map(|f| f.into_iter().map(|(k, v)| (s(k), s(v))).collect()),
        named_volume: None,
        host_path: host_path.map(s),
        permissions: None,
    }
}

fn named(name: &str) -> VolumeData {
    VolumeData {
        named_volume: Some(NamedVolume {
            name: s(name),
            labels: None,
            driver_opts: None,
        }),
        ..volume(None, None)
    }
}

fn mount(name: &str, path: &str, sub_path: Option<&str>, read_only: Option<bool>) -> VolumeMount {
    VolumeMount {
        name: s(name),
        mount_path: s(path),
        sub_path: sub_path.map(s),
        read_only,
    }
}

#[test]
fn only_docker_is_known() {
    assert_eq!(runtime_kind("docker"), Some(RuntimeKind::Docker));
    assert_eq!(runtime_kind("Docker"), None);
    assert_eq!(runtime_kind("podman"), None);
}

#[test]
fn shared_networks_go_with_their_last_user() {
    let mut usage = new_network_usage();
    track_network_usage(&mut usage, "net", "web");
    track_network_usage(&mut usage, "net", "api");
    track_network_usage(&mut usage, "net", "web");
    assert!(!untrack_network_usage(&mut usage, "net", "web"));
    assert!(!untrack_network_usage(&mut usage, "net", "web"));
    assert!(untrack_network_usage(&mut usage, "net", "api"));
    assert!(usage.is_empty());
    assert!(!untrack_network_usage(&mut usage, "net", "api"));

    track_network_usage(&mut usage, "net", "web");
    assert!(!remove_pod_network(&mut usage, "bridge", "web"));
    assert!(remove_pod_network(&mut usage, "web__1234", "web"));
    assert!(!remove_pod_network(&mut usage, "other", "web"));
    assert!(remove_pod_network(&mut usage, "net", "web"));
    assert!(usage.is_empty());
}

#[test]
fn pods_get_the_network_they_need() {
    let mut config = service();
    assert!(matches!(choose_pod_network(&config, "web", 1, 1), PodNetwork::Default));
    assert!(matches!(choose_pod_network(&config, "web", 1, 0), PodNetwork::Default));
    let own = choose_pod_network(&config, "web", 1, 2);
    assert_eq!(own.name(), Some(s("web__00000000-0000-0000-0000-000000000001")));
    config.network = Some(s("net"));
    let shared = choose_pod_network(&config, "web", 1, 5);
    assert_eq!(shared.mode(), "net");
    assert_eq!(PodNetwork::Default.mode(), "bridge");

    let (uuid, network) = begin_pod(&config, "web");
    assert_eq!((uuid >> 76) & 0xf, 4);
    assert_eq!(network.mode(), "net");
    assert_ne!(begin_pod(&config, "web").0, uuid);

    let mut usage = new_network_usage();
    let there = Some(vec![None, Some(s("net")), Some(s("web__00000000-0000-0000-0000-000000000001"))]);
    let missing = Some(vec![Some(s("bridge"))]);
    let r = setup_pod_network(&shared, &there);
    assert!(!r.remove && !r.create);
    let r = setup_pod_network(&shared, &missing);
    assert!(!r.remove && r.create);
    let r = setup_pod_network(&shared, &None);
    assert!(!r.remove && !r.create);
    let r = setup_pod_network(&own, &there);
    assert!(r.remove && r.create);
    let r = setup_pod_network(&own, &None);
    assert!(!r.remove && r.create);
    let r = setup_pod_network(&PodNetwork::Default, &there);
    assert!(!r.remove && !r.create);

    record_pod_network(&mut usage, &shared, "web", false);
    assert!(usage.is_empty());
    record_pod_network(&mut usage, &shared, "web", true);
    assert!(usage["net"].contains("web"));
    record_pod_network(&mut usage, &own, "api", true);
    record_pod_network(&mut usage, &PodNetwork::Default, "api", true);
    assert_eq!(usage.len(), 1);
    assert_eq!(usage["net"].len(), 1);
}

#[test]
fn volumes_are_mounted_from_the_host_or_from_files() {
    let mut config = service();
    let mut c = container("app");
    assert!(setup_volume_mounts(&c, &config).is_empty());
    c.volume_mounts = Some(vec![
        mount("host", "/data", None, Some(false)),
        mount("conf", "/etc/conf", None, None),
        mount("conf", "/etc/one", Some("a.json"), None),
        mount("unknown", "/x", None, None),
        mount("empty", "/y", None, None),
        mount("both", "/z", None, None),
        mount("data", "/var/data", None, None),
        mount("data", "/var/more", None, Some(false)),
    ]);
    assert!(setup_volume_mounts(&c, &config).is_empty());
    config.volumes = Some(
        [
            (s("host"), volume(Some("/srv/data"), None)),
            (s("conf"), volume(None, Some(vec![("a.json", "{}")]))),
            (s("empty"), volume(None, None)),
            (s("both"), volume(Some("/srv/both"), Some(vec![]))),
            (s("data"), named("myapp-data")),
        ]
        .into_iter()
        .collect(),
    );
    let plans = setup_volume_mounts(&c, &config);
    assert_eq!(plans.len(), 6);
    assert_eq!(plans[0].target, "/data");
    assert!(!plans[0].read_only);
    assert!(matches!(&plans[0].source, MountSource::HostPath(p) if p == "/srv/data"));
    assert!(plans[1].read_only);
    assert!(matches!(
        &plans[1].source,
        MountSource::Files { volume, sub_path: None } if volume == "conf"
    ));
    assert!(matches!(
        &plans[2].source,
        MountSource::Files { sub_path: Some(p), .. } if p == "a.json"
    ));
    assert!(matches!(&plans[3].source, MountSource::HostPath(p) if p == "/srv/both"));
    assert_eq!(plans[4].target, "/var/data");
    assert!(plans[4].read_only && !plans[5].read_only);
    assert!(matches!(&plans[4].source, MountSource::NamedVolume(n) if n == "myapp-data"));
    assert!(matches!(&plans[5].source, MountSource::NamedVolume(n) if n == "myapp-data"));
}

#[test]
fn volumes_brought_along_are_mounted_file_by_file() {
    let mut c = container("app");
    assert!(setup_container_volumes(&c).is_empty());
    c.volume_mounts = Some(vec![
        mount("conf", "/etc/conf", None, None),
        mount("conf", "/etc/one.json", Some("b.json"), None),
        mount("host", "/data", None, None),
        mount("unknown", "/x", None, None),
        mount("kept", "/kept", None, None),
    ]);
    c.volumes = Some(
        [
            (s("conf"), volume(None, Some(vec![("a.json", "1"), ("b.json", "2")]))),
            (s("host"), volume(Some("/srv"), None)),
            (s("kept"), named("store")),
        ]
        .into_iter()
        .collect(),
    );
    let mut seen: Vec<String> = setup_container_volumes(&c)
        .into_iter()
        .map(|m| match m {
            FileMount::HostPath { target, source } => format!("{} <- {}", target, source),
            FileMount::File { target, volume, file } => format!("{} <- {}:{}", target, volume, file),
            FileMount::NamedVolume { target, name } => format!("{} <- {}", target, name),
        })
        .collect();
    seen.sort();
    assert_eq!(
        seen,
        vec![
            "/data <- /srv",
            "/etc/conf/a.json <- conf:a.json",
            "/etc/conf/b.json <- conf:b.json",
            "/etc/one.json <- conf:b.json",
            "/kept <- store",
        ]
    );
}

#[test]
fn traffic_rules_need_both_rates() {
    let limit = |i: Option<&str>, e: Option<&str>| NetworkLimit {
        ingress_rate: i.map(s),
        egress_rate: e.map(s),
        ingress_burst: None,
        egress_burst: None,
    };
    let (i, e) = network_rates(&limit(Some("10Mbps"), Some("5Kbps"))).unwrap().unwrap();
    assert_eq!((i.multiplier, e.multiplier), (1_000_000, 1_000));
    assert!(network_rates(&limit(Some("10Mbps"), None)).unwrap().is_none());
    assert!(network_rates(&limit(None, Some("junk"))).unwrap().is_none());
    assert!(network_rates(&limit(Some("junk"), Some("5Kbps"))).is_err());
    assert!(network_rates(&limit(Some("5Kbps"), Some("junk"))).is_err());
    let rules = prepare_network_limits(10_000_000, 5_000);
    assert_eq!(rules[0].driver, "tc-ingress");
    assert_eq!(rules[0].capability, "rate=10000000");
    assert_eq!(rules[1].driver, "tc-egress");
    assert_eq!(rules[1].capability, "rate=5000");
    assert_eq!((rules[0].count, rules[1].count), (1, 1));
}

fn port(port: u16, target_port: Option<u16>, node_port: Option<u16>) -> ContainerPort {
    ContainerPort {
        port,
        target_port,
        node_port,
        protocol: None,
    }
}

#[test]
fn ports_are_exposed_and_bound() {
    let mut c = container("app");
    assert!(prepare_port_configuration(&c).metadata.is_empty());
    c.ports = Some(vec![
        port(80, Some(8080), Some(30080)),
        port(81, None, None),
        port(80, Some(8081), None),
    ]);
    let setup = prepare_port_configuration(&c);
    assert_eq!(setup.bindings.len(), 1);
    assert_eq!(setup.bindings["80/tcp"].host_port, "8081");
    assert_eq!(setup.bindings["80/tcp"].host_ip, "0.0.0.0");
    assert_eq!(setup.exposed.len(), 2);
    assert!(setup.exposed.contains("80/tcp") && setup.exposed.contains("81/tcp"));
    assert_eq!(setup.metadata.len(), 3);
    assert_eq!(setup.metadata[0].node_port, Some(30080));
    assert_eq!(setup.metadata[2].target_port, Some(8081));
}

#[test]
fn a_pod_is_tried_three_times() {
    assert_eq!(start_containers(0), RetryStep::RetryAfter(2_000_000_000));
    assert_eq!(start_containers(1), RetryStep::RetryAfter(2_000_000_000));
    assert_eq!(start_containers(2), RetryStep::GiveUp);
}

#[test]
fn a_container_is_planned_from_its_definition() {
    let mut config = service();
    config.memory_limit = Some(LimitValue::Text(s("1G")));
    let mut c = container("app");
    c.command = Some(vec![s("/app/server"), s("-v")]);
    c.ports = Some(vec![port(80, None, Some(30080))]);
    let plan =
        plan_container(&c, &config, "web", s("web__0__app__u"), &PodNetwork::Default).unwrap();
    assert_eq!(plan.name, "web__0__app__u");
    assert_eq!(plan.image, "nginx:latest");
    assert_eq!(plan.hostname, "web-app");
    assert_eq!(plan.network_mode, "bridge");
    assert_eq!(plan.command.unwrap(), vec!["/app/server", "-v"]);
    assert!(matches!(plan.memory, EffectiveLimit::Service(_)));
    assert!(matches!(plan.cpu, EffectiveLimit::Unlimited));
    assert_eq!(plan.ports.metadata[0].node_port, Some(30080));
    assert!(plan.rates.is_none());
    c.cpu_limit = Some(LimitValue::Other);
    assert!(plan_container(&c, &config, "web", s("n"), &PodNetwork::Default).is_err());
}

fn meta(node_port: u16) -> Vec<ContainerPortMetadata> {
    vec![ContainerPortMetadata {
        port: 80,
        target_port: None,
        node_port: Some(node_port),
    }]
}

#[test]
fn a_pod_that_failed_is_taken_down_again() {
    let own = PodNetwork::Dedicated(s("web__1"));
    let mut pod = PodStart::new();
    assert!(pod.record(s("a"), meta(1), StartOutcome::Running(s("10.0.0.1"))));
    assert!(pod.record(s("b"), meta(2), StartOutcome::InspectFailed));
    assert!(pod.record(s("c"), meta(3), StartOutcome::NoAddress));
    assert!(pod.record(s("d"), meta(4), StartOutcome::Running(s("10.0.0.2"))));
    assert!(!pod.record(s("e"), meta(5), StartOutcome::StartFailed));
    let failed = pod.finish(&own).unwrap_err();
    assert_eq!(failed.stop, vec!["a", "d"]);
    assert_eq!(failed.network, Some(s("web__1")));

    let mut pod = PodStart::new();
    assert!(!pod.record(s("a"), meta(1), StartOutcome::CreateFailed));
    let failed = pod.finish(&PodNetwork::Default).unwrap_err();
    assert!(failed.stop.is_empty() && failed.network.is_none());
}

#[test]
fn a_pod_that_started_lists_its_containers() {
    let mut pod = PodStart::new();
    assert!(pod.record(s("a"), meta(1), StartOutcome::Running(s("10.0.0.1"))));
    assert!(pod.record(s("b"), meta(2), StartOutcome::InspectFailed));
    let started = pod.finish(&PodNetwork::Default).unwrap();
    assert_eq!(started.len(), 1);
    assert_eq!(started[0].name, "a");
    assert_eq!(started[0].ip, "10.0.0.1");
    assert_eq!(started[0].ports[0].node_port, Some(1));
}

#[test]
fn published_ports_become_mappings() {
    let published = |p: &str, hosts: Option<Vec<Option<&str>>>| PublishedPort {
        port: s(p),
        host_ports: hosts.map(|h| h.into_iter().map(|x| x.map(s)).collect()),
    };
    let mappings = collect_port_mappings(&vec![
        published("80/tcp", Some(vec![Some("49153"), None, Some("49154")])),
        published("81/udp", None),
        published("82", Some(vec![Some("82")])),
        published("x/tcp", Some(vec![Some("1")])),
        published("83/tcp", Some(vec![Some("70000")])),
        published("65536/tcp", Some(vec![Some("1")])),
    ]);
    assert_eq!(mappings, HashMap::from([(80, 49154), (82, 82)]));
}

#[test]
fn running_containers_are_listed_by_their_first_name() {
    let listed = |state: Option<&str>, names: Option<Vec<&str>>, ports: Option<Vec<Option<u16>>>| {
        ListedContainer {
            id: Some(s("id")),
            names: names.map(|n| n.into_iter().map(s).collect()),
            state: state.map(s),
            ports,
        }
    };
    let list = list_containers(&vec![
        listed(Some("running"), Some(vec!["//web", "/other"]), Some(vec![Some(8080), Some(1)])),
        listed(Some("exited"), Some(vec!["/gone"]), None),
        listed(None, Some(vec!["/unknown"]), None),
        listed(Some("running"), None, Some(vec![None, Some(9)])),
        listed(Some("running"), Some(vec![]), Some(vec![])),
    ]);
    assert_eq!(list.len(), 3);
    assert_eq!((list[0].name.as_str(), list[0].port), ("web", 8080));
    assert_eq!(list[0].state, "running");
    assert_eq!(list[0].id, "id");
    assert_eq!((list[1].name.as_str(), list[1].port), ("", 0));
    assert_eq!((list[2].name.as_str(), list[2].port), ("", 0));
    assert_eq!(name_filter("web"), "web__");
}

#[test]
fn images_are_compared_with_those_on_record() {
    let containers = vec![container("a"), container("b"), container("c")];
    let current = [(s("a"), s("sha1")), (s("b"), s("sha2"))].into_iter().collect();
    let updates =
        check_image_updates(&containers, &current, &vec![s("sha1"), s("new"), s("sha3")]);
    assert_eq!(updates.len(), 3);
    assert!(!updates["a"] && updates["b"] && updates["c"]);
    assert!(any_update(&updates));
    let same = check_image_updates(&containers, &current, &vec![s("sha1"), s("sha2")]);
    assert!(!any_update(&same));
}
