use orbit::config::{
    CoDelConfig, InstanceCount, PodMetricsStrategy, PodStats, ResourceThresholds, ServiceConfig,
    ServiceSpec,
};
use orbit::container::scaling::codel::{
    get_service_metrics, initialize_codel_metrics, keep_service_metrics, CoDelMetrics,
    CoDelWindows,
};
use orbit::container::scaling::manager::{
    are_all_below, count_overloaded, default_cooldown_duration, default_scale_down_threshold,
    three_quarters, EvaluationTimes, ScalingDecision, ScalingPolicy, UnifiedScalingManager,
};
use orbit::level::Level;
use orbit::proxy::{response_filter, upstream_rejection};
use std::collections::HashMap;

const MS: u128 = 1_000_000;
const SEC: u128 = 1_000_000_000;

fn codel() -> CoDelConfig {
    CoDelConfig {
        target: 100 * MS,
        interval: SEC,
        consecutive_intervals: 3,
        max_scale_step: 1,
        scale_cooldown: 30 * SEC,
        overload_status_code: Some(503),
    }
}

fn windows() -> CoDelWindows {
    CoDelWindows {
        double_interval: 2 * SEC,
        sustained: 3 * SEC,
        half_target: 50 * MS,
    }
}

fn metrics(now: u128) -> CoDelMetrics {
    CoDelMetrics::new("web".to_string(), codel(), windows(), now)
}

fn record(m: &mut CoDelMetrics, count: usize, latency: u128, now: u128) {
    for _ in 0..count {
        m.record_sojourn(latency, now);
    }
}

#[test]
fn sustained_latency_asks_for_one_pod() {
    let mut m = metrics(0);
    record(&mut m, 10, 200 * MS, 100 * SEC);
    assert!(m.check_state(100 * SEC).is_none());
    record(&mut m, 10, 200 * MS, 102 * SEC);
    assert!(m.check_state(102 * SEC).is_none());
    record(&mut m, 10, 200 * MS, 103 * SEC);
    let action = m.check_state(103 * SEC).unwrap();
    assert_eq!(action.service, "web");
    assert_eq!(action.instances, 1);
    assert_eq!(action.status_code, None);
    record(&mut m, 10, 200 * MS, 110 * SEC);
    assert!(m.check_state(110 * SEC).is_none());
    assert!(m.check_state(132 * SEC).is_none());
}

#[test]
fn a_cooldown_follows_the_start() {
    let mut m = metrics(0);
    record(&mut m, 10, 200 * MS, 10 * SEC);
    assert!(m.check_state(10 * SEC).is_none());
    record(&mut m, 10, 200 * MS, 29 * SEC);
    assert!(m.check_state(29 * SEC).is_none());
    record(&mut m, 10, 200 * MS, 30 * SEC);
    assert!(m.check_state(30 * SEC).is_none());
    record(&mut m, 10, 200 * MS, 33 * SEC);
    assert!(m.check_state(33 * SEC).is_some());
}

#[test]
fn one_good_sample_or_silence_clears_the_alarm() {
    let mut m = metrics(0);
    record(&mut m, 10, 200 * MS, 100 * SEC);
    assert!(m.check_state(100 * SEC).is_none());
    record(&mut m, 10, 200 * MS, 101 * SEC);
    record(&mut m, 1, 100 * MS, 101 * SEC);
    assert!(m.check_state(101 * SEC).is_none());
    record(&mut m, 12, 200 * MS, 104 * SEC);
    assert!(m.check_state(104 * SEC).is_none());
    m.check_traffic(110 * SEC);
    record(&mut m, 12, 200 * MS, 111 * SEC);
    assert!(m.check_state(111 * SEC).is_none());
}

#[test]
fn requests_are_rejected_while_every_recent_one_is_slow() {
    let mut m = metrics(0);
    record(&mut m, 9, 200 * MS, SEC);
    assert!(!m.should_reject(SEC));
    record(&mut m, 1, 200 * MS, SEC);
    assert!(m.should_reject(SEC));
    assert_eq!(upstream_rejection(&codel(), &m, SEC), Some(503));
    let silent = CoDelConfig {
        overload_status_code: None,
        ..codel()
    };
    assert_eq!(upstream_rejection(&silent, &m, SEC), None);
    assert!(!m.should_reject(3 * SEC));
    record(&mut m, 1, 100 * MS, SEC);
    assert!(!m.should_reject(SEC));
    assert_eq!(upstream_rejection(&codel(), &m, SEC), None);
}

#[test]
fn idle_services_can_shrink() {
    let mut m = metrics(0);
    assert!(m.can_scale_down(0));
    record(&mut m, 4, 10 * MS, SEC);
    assert!(!m.can_scale_down(SEC));
    record(&mut m, 1, 10 * MS, SEC);
    assert!(m.can_scale_down(SEC));
    record(&mut m, 1, 50 * MS, SEC);
    assert!(!m.can_scale_down(SEC));
    assert!(m.can_scale_down(5 * SEC));
}

#[test]
fn old_samples_are_dropped_sooner_once_latency_drops() {
    let mut m = metrics(0);
    record(&mut m, 10, 200 * MS, 0);
    m.record_sojourn(200 * MS, 1500 * MS);
    assert!(m.should_reject(1500 * MS));
    let mut n = metrics(0);
    record(&mut n, 10, 200 * MS, 0);
    n.record_sojourn(50 * MS, 1500 * MS);
    assert!(!n.should_reject(1500 * MS));
}

#[test]
fn at_most_a_thousand_samples_are_kept() {
    let mut m = metrics(0);
    record(&mut m, 1, 10 * MS, 0);
    record(&mut m, 1000, 200 * MS, 0);
    assert!(m.should_reject(0));
    let mut n = metrics(0);
    record(&mut n, 1, 10 * MS, 0);
    record(&mut n, 999, 200 * MS, 0);
    assert!(!n.should_reject(0));
}

#[test]
fn a_slow_response_may_ask_for_a_pod() {
    let mut m = metrics(0);
    for i in 0..10u128 {
        assert!(!response_filter(&mut m, 200 * MS, 100 * SEC + i, 100 * SEC + i));
    }
    record(&mut m, 10, 200 * MS, 103 * SEC);
    assert!(response_filter(&mut m, 200 * MS, 104 * SEC, 104 * SEC));
}

#[test]
fn samples_are_kept_by_service() {
    let mut store = initialize_codel_metrics();
    let mut m = get_service_metrics(&mut store, "web", &codel(), &windows(), 0);
    record(&mut m, 10, 200 * MS, SEC);
    keep_service_metrics(&mut store, "web", m);
    let again = get_service_metrics(&mut store, "web", &codel(), &windows(), 5 * SEC);
    assert!(again.should_reject(SEC));
    let other = get_service_metrics(&mut store, "api", &codel(), &windows(), 0);
    assert!(!other.should_reject(SEC));
    assert!(store.contains_key("web") && store.contains_key("api"));
    assert!(get_service_metrics(&mut store, "web", &codel(), &windows(), 6 * SEC).should_reject(SEC));
}

fn level(f: f64) -> Level {
    Level { bits: f.to_bits() }
}

/// Memory in thousandths of the limit.
fn pod(cpu: f64, relative: f64, memory: u64) -> PodStats {
    PodStats {
        cpu_percentage: level(cpu),
        cpu_percentage_relative: level(relative),
        memory_usage: memory,
        memory_limit: 1000,
    }
}

fn service(thresholds: Option<ResourceThresholds>) -> ServiceConfig {
    ServiceConfig {
        name: "web".to_string(),
        network: None,
        spec: ServiceSpec { containers: vec![] },
        volumes: None,
        memory_limit: None,
        cpu_limit: None,
        resource_thresholds: thresholds,
        codel: None,
        scaling_policy: None,
        instance_count: InstanceCount { min: 1, max: 3 },
        adopt_orphans: false,
        interval_seconds: None,
        image_check_interval: None,
        rolling_update_config: None,
    }
}

fn thresholds() -> ResourceThresholds {
    ResourceThresholds {
        cpu_percentage: Some(80),
        cpu_percentage_relative: Some(90),
        memory_percentage: Some(85),
        metrics_strategy: PodMetricsStrategy::Maximum,
    }
}

fn at(now: u128) -> EvaluationTimes {
    EvaluationTimes {
        start: now,
        traffic: now,
        idle: now,
        overload: now,
        recheck: now,
    }
}

fn manager() -> UnifiedScalingManager {
    UnifiedScalingManager::new("web".to_string(), &service(Some(thresholds())), None, 0)
}

#[test]
fn overloaded_pods_are_counted_among_the_measured() {
    let pods = HashMap::from([
        (1, pod(81.0, 10.0, 0)),
        (2, pod(80.0, 90.0, 850)),
        (3, pod(0.0, 95.0, 990)),
        (4, pod(1.0, 1.0, 851)),
        (5, pod(1.0, 90.5, 10)),
        (6, pod(f64::NAN, 95.0, 990)),
    ]);
    assert_eq!(count_overloaded(&thresholds(), &pods), (3, 4));
    let low = ResourceThresholds {
        cpu_percentage: Some(1),
        cpu_percentage_relative: None,
        memory_percentage: None,
        metrics_strategy: PodMetricsStrategy::Maximum,
    };
    let quiet = HashMap::from([(1, pod(4.9, 1.0, 0)), (2, pod(5.0, 1.0, 0))]);
    assert_eq!(count_overloaded(&low, &quiet), (1, 2));
    let memory = ResourceThresholds {
        cpu_percentage: None,
        cpu_percentage_relative: None,
        memory_percentage: Some(1),
        metrics_strategy: PodMetricsStrategy::Maximum,
    };
    let unlimited = PodStats {
        memory_limit: 0,
        ..pod(1.0, 1.0, 990)
    };
    let fleet = HashMap::from([(1, pod(1.0, 1.0, 49)), (2, pod(1.0, 1.0, 50)), (3, unlimited)]);
    assert_eq!(count_overloaded(&memory, &fleet), (1, 3));
    let without = UnifiedScalingManager::new("web".to_string(), &service(None), None, 0);
    assert_eq!(without.count_pods(&pods), None);
    assert_eq!(manager().count_pods(&HashMap::new()), None);
}

#[test]
fn resource_load_grows_and_shrinks_a_service() {
    let mut m = manager();
    let busy = HashMap::from([(1, pod(90.0, 95.0, 0))]);
    let mut none = None;
    assert_eq!(
        m.evaluate(&at(59 * SEC), 1, &busy, &mut none),
        ScalingDecision::NoChange
    );
    assert_eq!(
        m.evaluate(&at(60 * SEC), 1, &busy, &mut none),
        ScalingDecision::ScaleUp(1)
    );
    assert_eq!(
        m.evaluate(&at(61 * SEC), 1, &busy, &mut none),
        ScalingDecision::NoChange
    );
    assert_eq!(
        m.evaluate(&at(120 * SEC), 3, &busy, &mut none),
        ScalingDecision::NoChange
    );
    let mixed = HashMap::from([(1, pod(10.0, 10.0, 0)), (2, pod(90.0, 10.0, 0))]);
    assert_eq!(
        m.evaluate(&at(121 * SEC), 2, &mixed, &mut none),
        ScalingDecision::NoChange
    );
    let idle = HashMap::from([(1, pod(10.0, 10.0, 0)), (2, pod(49.9, 10.0, 499))]);
    assert_eq!(
        m.evaluate(&at(121 * SEC), 2, &idle, &mut none),
        ScalingDecision::ScaleDown(1)
    );
    m.enter_cooldown(200 * SEC);
    assert_eq!(
        m.evaluate(&at(259 * SEC), 2, &idle, &mut none),
        ScalingDecision::NoChange
    );
    assert_eq!(
        m.evaluate(&at(260 * SEC), 1, &idle, &mut none),
        ScalingDecision::NoChange
    );
}

#[test]
fn three_quarters_are_needed_to_grow() {
    let m = manager();
    let busy = || pod(90.0, 1.0, 0);
    let calm = || pod(60.0, 1.0, 0);
    let three_of_four = HashMap::from([(1, busy()), (2, busy()), (3, busy()), (4, calm())]);
    assert_eq!(
        m.evaluate_resources(&three_of_four),
        Some(ScalingDecision::ScaleUp(1))
    );
    let two_of_three = HashMap::from([(1, busy()), (2, busy()), (3, calm())]);
    assert_eq!(
        m.evaluate_resources(&two_of_three),
        Some(ScalingDecision::NoChange)
    );
    let unmeasured = HashMap::from([(1, busy()), (2, pod(0.0, 0.0, 0))]);
    assert_eq!(
        m.evaluate_resources(&unmeasured),
        Some(ScalingDecision::ScaleUp(1))
    );
    assert_eq!(m.evaluate_resources(&HashMap::new()), None);
    assert!(three_quarters(3, 4) && three_quarters(0, 0) && !three_quarters(2, 3));
}

#[test]
fn memory_is_compared_as_doubles_are() {
    let low = ResourceThresholds {
        cpu_percentage: None,
        cpu_percentage_relative: None,
        memory_percentage: Some(7),
        metrics_strategy: PodMetricsStrategy::Maximum,
    };
    let m = UnifiedScalingManager::new("web".to_string(), &service(Some(low)), None, 0);
    let used = |memory_usage, memory_limit| {
        HashMap::from([(
            1,
            PodStats {
                memory_usage,
                memory_limit,
                ..pod(60.0, 60.0, 0)
            },
        )])
    };
    assert!(7.0f64 / 100.0 * 100.0 > 7.0);
    assert_eq!(m.evaluate_resources(&used(7, 100)), Some(ScalingDecision::ScaleUp(1)));
    assert_eq!(m.evaluate_resources(&used(699, 10_000)), Some(ScalingDecision::NoChange));
    assert_eq!(m.evaluate_resources(&used(7, 0)), Some(ScalingDecision::NoChange));
}

#[test]
fn a_pod_goes_only_where_all_are_used_below_the_threshold() {
    let m = manager();
    let one = |p: PodStats| HashMap::from([(1, p), (2, pod(1.0, 1.0, 0))]);
    let shrink = Some(ScalingDecision::ScaleDown(1));
    let stay = Some(ScalingDecision::NoChange);
    assert_eq!(m.evaluate_resources(&one(pod(49.9, 49.9, 499))), shrink);
    assert_eq!(m.evaluate_resources(&one(pod(50.0, 1.0, 0))), stay);
    assert_eq!(m.evaluate_resources(&one(pod(1.0, 50.0, 0))), stay);
    assert_eq!(m.evaluate_resources(&one(pod(1.0, 1.0, 500))), stay);
    assert_eq!(m.evaluate_resources(&one(pod(0.0, 99.0, 900))), shrink);
    let unlimited = PodStats {
        memory_limit: 0,
        ..pod(1.0, 1.0, 900)
    };
    assert_eq!(m.evaluate_resources(&one(unlimited)), shrink);
    assert!(are_all_below(&one(unlimited), &level(1.5)));
    assert!(!are_all_below(&one(unlimited), &level(1.0)));

    let policy = ScalingPolicy {
        cooldown_duration: Some(SEC),
        scale_down_threshold_percentage: Some(level(10.0)),
    };
    let strict =
        UnifiedScalingManager::new("web".to_string(), &service(Some(thresholds())), Some(policy), 0);
    assert_eq!(strict.evaluate_resources(&one(pod(49.9, 1.0, 0))), stay);
    assert_eq!(strict.evaluate_resources(&one(pod(9.9, 1.0, 99))), shrink);
}

#[test]
fn latency_comes_before_resources() {
    let mut m = manager();
    let idle = HashMap::from([(1, pod(1.0, 1.0, 0)), (2, pod(1.0, 1.0, 0))]);
    let mut slow = metrics(0);
    record(&mut slow, 12, 200 * MS, 97 * SEC);
    assert!(slow.check_state(97 * SEC).is_none());
    record(&mut slow, 12, 200 * MS, 100 * SEC);
    let mut codel_state = Some(slow);
    assert_eq!(
        m.evaluate(&at(100 * SEC), 2, &idle, &mut codel_state),
        ScalingDecision::ScaleUp(1)
    );
    assert_eq!(m.get_state(100 * SEC), "codel_scaling_up_0");

    let mut n = manager();
    let mut busy = metrics(0);
    record(&mut busy, 12, 90 * MS, 100 * SEC);
    let mut codel_state = Some(busy);
    assert_eq!(
        n.evaluate(&at(100 * SEC), 2, &idle, &mut codel_state),
        ScalingDecision::NoChange
    );
    let mut quiet = Some(metrics(0));
    assert_eq!(
        n.evaluate(&at(100 * SEC), 2, &idle, &mut quiet),
        ScalingDecision::ScaleDown(1)
    );
    assert_eq!(n.get_state(100 * SEC), "normal");
}

#[test]
fn policies_have_defaults() {
    let policy = ScalingPolicy::default();
    assert_eq!(policy.get_cooldown_duration(), 60 * SEC);
    assert_eq!(policy.get_cooldown_duration(), default_cooldown_duration());
    assert_eq!(policy.get_scale_down_threshold().bits, 50.0f64.to_bits());
    assert_eq!(default_scale_down_threshold().bits, 50.0f64.to_bits());
    assert_eq!(PodMetricsStrategy::default(), PodMetricsStrategy::Maximum);
}
