use orbit::config::limits::{
    effective_cpu_limit, effective_memory_limit, memory_amount_from, parse_cpu_limit,
    parse_memory_limit, parse_network_rate, rate_amount_from, Amount, AmountNumber,
    EffectiveLimit, LimitError,
};
use orbit::config::utils::{
    assemble_name_parts, get_relative_config_path, parse_container_name, ContainerNameError,
};
use orbit::config::LimitValue;
use orbit::container::naming::{
    address_of, get_next_pod_number, next_pod_number, pod_container_name, pod_network_name,
    proxy_key_of, service_part_of,
};
use orbit::container::{Container, ContainerError, ContainerInfo};
use orbit::level::Level;

const UUID: u128 = 0x550e8400e29b41d4a716446655440000;
const UUID_TEXT: &str = "550e8400-e29b-41d4-a716-446655440000";

fn container(name: &str) -> Container {
    Container {
        name: name.to_string(),
        image: "nginx".to_string(),
        command: None,
        ports: None,
        volume_mounts: None,
        volumes: None,
        memory_limit: None,
        cpu_limit: None,
        network_limit: None,
        resource_thresholds: None,
        health_check: None,
    }
}

fn text(s: &str) -> LimitValue {
    LimitValue::Text(s.to_string())
}

fn number(f: f64) -> LimitValue {
    LimitValue::Number(Level { bits: f.to_bits() })
}

fn product(a: &Amount) -> u64 {
    let value = match &a.number {
        AmountNumber::Given(l) => f64::from_bits(l.bits),
        AmountNumber::Numeral(s) => s.parse::<f64>().unwrap(),
    };
    (value * a.multiplier as f64) as u64
}

#[test]
fn memory_limits_are_numbers_with_units() {
    assert_eq!(product(&parse_memory_limit(&text("512Mi")).unwrap()), 536870912);
    assert_eq!(product(&parse_memory_limit(&text("1G")).unwrap()), 1073741824);
    assert_eq!(product(&parse_memory_limit(&text("1.5Gi")).unwrap()), 1610612736);
    assert_eq!(product(&parse_memory_limit(&text("64K")).unwrap()), 65536);
    assert_eq!(product(&parse_memory_limit(&text("5.M")).unwrap()), 5242880);
    assert_eq!(product(&parse_memory_limit(&number(0.5)).unwrap()), 536870912);
    for s in ["", "512", "Mi", "512mi", "512MiB", ".5G", " 1G", "1G ", "1 G", "-1G", "1T", "1G\n"] {
        assert_eq!(
            parse_memory_limit(&text(s)).unwrap_err(),
            LimitError::InvalidFormat,
            "{:?}",
            s
        );
    }
    assert_eq!(
        parse_memory_limit(&LimitValue::Other).unwrap_err(),
        LimitError::UnsupportedType
    );
    assert_eq!(
        memory_amount_from(Some(("1".to_string(), "T".to_string()))).unwrap_err(),
        LimitError::UnsupportedUnit
    );
    assert_eq!(memory_amount_from(None).unwrap_err(), LimitError::InvalidFormat);
}

#[test]
fn cpu_limits_are_counted_in_nanocpus() {
    assert_eq!(product(&parse_cpu_limit(&text("0.5")).unwrap()), 500_000_000);
    assert_eq!(product(&parse_cpu_limit(&number(2.0)).unwrap()), 2_000_000_000);
    for f in [0.0, -0.0, -1.0, f64::INFINITY, 1e11, 18446744073.709556] {
        assert_eq!(
            parse_cpu_limit(&number(f)).unwrap_err(),
            LimitError::OutOfRange,
            "{}",
            f
        );
    }
    let greatest = (u64::MAX as f64) / 1_000_000_000.0;
    assert!(parse_cpu_limit(&number(greatest)).is_ok());
    assert_eq!(
        parse_cpu_limit(&LimitValue::Other).unwrap_err(),
        LimitError::UnsupportedType
    );
}

#[test]
fn network_rates_are_numbers_with_units() {
    assert_eq!(product(&parse_network_rate("10Mbps").unwrap()), 10_000_000);
    assert_eq!(product(&parse_network_rate("1.5Gbps").unwrap()), 1_500_000_000);
    assert_eq!(product(&parse_network_rate("64Kbps").unwrap()), 64_000);
    for s in ["10", "10mbps", "10.Mbps", ".5Mbps", "10MB", "Mbps"] {
        assert_eq!(parse_network_rate(s).unwrap_err(), LimitError::InvalidFormat, "{}", s);
    }
    assert_eq!(
        rate_amount_from(Some(("1".to_string(), "Tbps".to_string()))).unwrap_err(),
        LimitError::UnsupportedUnit
    );
}

#[test]
fn a_containers_own_limit_wins() {
    let own = effective_memory_limit(&Some(text("1G")), &Some(text("2G"))).unwrap();
    assert!(matches!(own, EffectiveLimit::Container(a) if product(&a) == 1 << 30));
    let service = effective_memory_limit(&None, &Some(text("2G"))).unwrap();
    assert!(matches!(service, EffectiveLimit::Service(a) if product(&a) == 2 << 30));
    assert!(effective_memory_limit(&Some(text("junk")), &Some(text("2G"))).is_err());
    assert!(matches!(
        effective_memory_limit(&None, &Some(text("junk"))),
        Ok(EffectiveLimit::Unlimited)
    ));
    assert!(matches!(effective_cpu_limit(&None, &None), Ok(EffectiveLimit::Unlimited)));
    assert!(matches!(
        effective_cpu_limit(&None, &Some(number(-1.0))),
        Ok(EffectiveLimit::Unlimited)
    ));
    assert_eq!(
        effective_cpu_limit(&Some(number(-1.0)), &None).unwrap_err(),
        LimitError::OutOfRange
    );
}

#[test]
fn container_names_come_apart_again() {
    let name = pod_container_name(&container("nginx"), "web-service", 7, UUID).unwrap();
    assert_eq!(name, format!("web-service__7__nginx__{}", UUID_TEXT));
    let parts = parse_container_name(&name).unwrap();
    assert_eq!(parts.service_name, "web-service");
    assert_eq!(parts.pod_number, 7);
    assert_eq!(parts.container_name, "nginx");
    assert_eq!(parts.uuid, UUID);
}

#[test]
fn names_that_are_not_container_names_are_refused() {
    let error = |s: &str| parse_container_name(s).unwrap_err();
    assert_eq!(error("web"), ContainerNameError::WrongPattern);
    assert_eq!(error("a__0__b"), ContainerNameError::WrongPattern);
    assert_eq!(error(&format!("a__0__b__{}__c", UUID_TEXT)), ContainerNameError::WrongPattern);
    assert_eq!(error(&format!("a__256__b__{}", UUID_TEXT)), ContainerNameError::InvalidPodNumber);
    assert_eq!(error("a__x__b__junk"), ContainerNameError::InvalidPodNumber);
    assert_eq!(error("a__0__b__junk"), ContainerNameError::InvalidUuid);
    assert_eq!(error("a__0__b__550e8400"), ContainerNameError::InvalidUuid);
    let parts: Vec<String> = ["a", "1", "b", "ignored"].iter().map(|s| s.to_string()).collect();
    assert_eq!(assemble_name_parts(&parts, Some(9)).unwrap().uuid, 9);
    assert_eq!(
        assemble_name_parts(&parts, None).unwrap_err(),
        ContainerNameError::InvalidUuid
    );
}

#[test]
fn uuids_may_be_written_in_other_forms() {
    let plain = UUID_TEXT.replace('-', "").to_uppercase();
    assert_eq!(parse_container_name(&format!("a__+1__b__{}", plain)).unwrap().uuid, UUID);
}

#[test]
fn long_names_are_refused_by_their_bytes() {
    let long = "x".repeat(61);
    let fits = "x".repeat(60);
    assert_eq!(
        container("c").generate_runtime_name(&long, 0, "u"),
        Err(ContainerError::ServiceNameTooLong(60))
    );
    assert_eq!(
        container(&long).generate_runtime_name(&fits, 0, "u"),
        Err(ContainerError::ContainerNameTooLong(60))
    );
    assert_eq!(
        container(&fits).generate_runtime_name(&fits, 3, "u").unwrap(),
        format!("{}__3__{}__u", fits, fits)
    );
    assert!(container("c").generate_runtime_name(&"é".repeat(31), 0, "u").is_err());
    assert_eq!(
        ContainerError::ServiceNameTooLong(60).message(),
        "Service name exceeds maximum length of 60 characters"
    );
    assert_eq!(
        ContainerError::ContainerNameTooLong(60).message(),
        "Container name exceeds maximum length of 60 characters"
    );
}

#[test]
fn keys_networks_and_addresses_have_their_forms() {
    assert_eq!(proxy_key_of("web", 30080), "web__30080");
    assert_eq!(service_part_of("web__30080"), "web");
    assert_eq!(service_part_of("web"), "web");
    assert_eq!(pod_network_name("web", UUID), format!("web__{}", UUID_TEXT));
    assert_eq!(pod_network_name("web", 0), "web__00000000-0000-0000-0000-000000000000");
    assert_eq!(
        pod_network_name("web", u128::MAX),
        "web__ffffffff-ffff-ffff-ffff-ffffffffffff"
    );
    assert_eq!(address_of("10.0.0.7", 8080), "10.0.0.7:8080");
}

#[test]
fn pod_numbers_go_up() {
    let info = |name: String| ContainerInfo {
        id: String::new(),
        name,
        state: "running".to_string(),
        port: 0,
    };
    let named = |n: u8| info(format!("web__{}__nginx__{}", n, UUID_TEXT));
    assert_eq!(get_next_pod_number(&None), Some(0));
    assert_eq!(get_next_pod_number(&Some(vec![])), Some(0));
    assert_eq!(get_next_pod_number(&Some(vec![info("stray".to_string())])), Some(0));
    assert_eq!(get_next_pod_number(&Some(vec![named(3), named(0), named(3)])), Some(4));
    assert_eq!(get_next_pod_number(&Some(vec![named(254)])), Some(255));
    assert_eq!(get_next_pod_number(&Some(vec![named(255), named(1)])), None);
    assert_eq!(next_pod_number(&vec![2, 9, 4]), 10);
}

#[test]
fn relative_paths_start_at_the_configuration_directory() {
    assert_eq!(
        get_relative_config_path(Some("/srv/configs/web.yml"), Some("configs")),
        Some("configs/web.yml".to_string())
    );
    assert_eq!(
        get_relative_config_path(Some("/a/configs/configs/x"), Some("configs")),
        Some("configs/configs/x".to_string())
    );
    assert_eq!(get_relative_config_path(Some("/srv/web.yml"), Some("configs")), None);
    assert_eq!(get_relative_config_path(None, Some("configs")), None);
    assert_eq!(get_relative_config_path(Some("x"), None), None);
    assert_eq!(
        get_relative_config_path(Some("x"), Some("")),
        Some("x".to_string())
    );
}
