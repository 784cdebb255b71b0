//! Container health.
//!
//! Times are in nanoseconds since the epoch.

pub mod config;

use crate::container::health::config::HealthCheckConfig;
use crate::container::runtimes::docker;
use crate::stores;
use rustc_hash::FxHashMap;
use vstd::prelude::*;
use vstd::string::*;

verus! {

/// How a container is doing.
#[derive(Clone, Copy, PartialEq, Eq, Structural, Debug)]
pub enum HealthState {
    Starting,
    Healthy,
    Unhealthy,
    Failed,
}

/// How a container is doing, and how it came to that.
#[derive(Debug)]
pub struct ContainerHealthState {
    pub state: HealthState,
    pub last_state: Option<HealthState>,
    pub last_transition: u128,
    pub restart_count: u32,
    pub last_restart: Option<u128>,
    pub failure_count: u32,
    pub last_failure: Option<u128>,
    pub message: Option<String>,
}

/// What a `ContainerHealthState` says.
pub struct HealthFacts {
    pub state: HealthState,
    pub last_state: Option<HealthState>,
    pub last_transition: u128,
    pub restart_count: u32,
    pub last_restart: Option<u128>,
    pub failure_count: u32,
    pub last_failure: Option<u128>,
    pub message: Option<Seq<char>>,
}

impl View for ContainerHealthState {
    type V = HealthFacts;

    open spec fn view(&self) -> HealthFacts {
        HealthFacts {
            state: self.state,
            last_state: self.last_state,
            last_transition: self.last_transition,
            restart_count: self.restart_count,
            last_restart: self.last_restart,
            failure_count: self.failure_count,
            last_failure: self.last_failure,
            message: docker::optional_text(self.message),
        }
    }
}

impl HealthFacts {
    /// In another state, for the given reason.
    pub open spec fn moved(self, state: HealthState, message: Option<Seq<char>>, now: u128) -> HealthFacts {
        HealthFacts { state, last_state: Some(self.state), last_transition: now, message, ..self }
    }

    /// With one more failure.
    pub open spec fn failed(self, now: u128) -> HealthFacts {
        HealthFacts { failure_count: (self.failure_count + 1) as u32, last_failure: Some(now), ..self }
    }
}

/// A container that was just started.
pub open spec fn starting(now: u128) -> HealthFacts {
    HealthFacts {
        state: HealthState::Starting,
        last_state: None,
        last_transition: now,
        restart_count: 0,
        last_restart: None,
        failure_count: 0,
        last_failure: None,
        message: None,
    }
}

impl ContainerHealthState {
    /// A container that was just started.
    pub fn starting_at(now: u128) -> (r: Self)
        ensures
            r@ == starting(now),
    {
        ContainerHealthState {
            state: HealthState::Starting,
            last_state: None,
            last_transition: now,
            restart_count: 0,
            last_restart: None,
            failure_count: 0,
            last_failure: None,
            message: None,
        }
    }

    /// Moves to another state; the present one becomes the last one.
    pub fn transition_to(&mut self, new_state: HealthState, message: Option<String>, now: u128)
        ensures
            final(self)@ == old(self)@.moved(new_state, docker::optional_text(message), now),
    {
        self.last_state = Some(self.state);
        self.state = new_state;
        self.last_transition = now;
        self.message = message;
    }

    /// Counts a failure.
    pub fn record_failure(&mut self, now: u128)
        requires
            old(self)@.failure_count < u32::MAX,
        ensures
            final(self)@ == old(self)@.failed(now),
    {
        self.failure_count = self.failure_count + 1;
        self.last_failure = Some(now);
    }
}

/// The health of every container.
pub type HealthStore = FxHashMap<String, ContainerHealthState>;

/// No containers yet.
pub fn new_health_store() -> (r: HealthStore)
    ensures
        forall|k: Seq<char>| !stores::entries(r).contains_key(k),
{
    stores::map_new()
}

/// How the container is doing.
pub open spec fn health_of(store: HealthStore, name: Seq<char>) -> Option<HealthFacts> {
    if stores::entries(store).contains_key(name) {
        Some(stores::entries(store)[name]@)
    } else {
        None
    }
}

/// The failures of the container, if it is watched, can still be counted.
pub open spec fn failures_countable(store: HealthStore, name: Seq<char>) -> bool {
    health_of(store, name) matches Some(h) ==> h.failure_count < u32::MAX
}

/// Only the health of the one container differs, and it is `health`.
pub open spec fn only_health_changed(
    before: HealthStore,
    after: HealthStore,
    name: Seq<char>,
    health: Option<HealthFacts>,
) -> bool {
    &&& health_of(after, name) == health
    &&& forall|n: Seq<char>| n != name ==> #[trigger] health_of(after, n) == health_of(before, n)
}

/// Watches one container.
#[derive(Debug)]
pub struct HealthMonitor {
    container_name: String,
    config: HealthCheckConfig,
    consecutive_failures: u32,
}

/// What a `HealthMonitor` says.
pub struct MonitorFacts {
    pub container_name: Seq<char>,
    pub config: HealthCheckConfig,
    pub consecutive_failures: u32,
}

impl View for HealthMonitor {
    type V = MonitorFacts;

    closed spec fn view(&self) -> MonitorFacts {
        MonitorFacts {
            container_name: self.container_name@,
            config: self.config,
            consecutive_failures: self.consecutive_failures,
        }
    }
}

/// What a look at a container showed.
#[derive(Debug)]
pub enum Probe {
    /// It runs and, where that is checked, takes connections.
    Alive,
    /// It runs and does not take connections.
    Unreachable,
    /// It could not be inspected, for the given reason.
    InspectionFailed(String),
}

/// What a monitor does next.
#[derive(Clone, Copy, PartialEq, Eq, Structural, Debug)]
pub enum MonitorStep {
    /// Nothing more.
    Stop,
    /// Look again after so many nanoseconds.
    Wait(u128),
}

/// The configuration given, or the default one.
pub open spec fn config_or_default(config: Option<HealthCheckConfig>) -> HealthCheckConfig {
    match config {
        Some(c) => c,
        None => HealthCheckConfig {
            startup_timeout: 30_000_000_000,
            startup_failure_threshold: 3,
            liveness_period: 10_000_000_000,
            liveness_failure_threshold: 3,
            tcp_check: None,
        },
    }
}

/// Starts to watch a container.
pub fn initialize_health_monitoring(
    store: &mut HealthStore,
    container_name: &str,
    config: Option<HealthCheckConfig>,
    now: u128,
) -> (r: HealthMonitor)
    ensures
        only_health_changed(*old(store), *final(store), container_name@, Some(starting(now))),
        r@ == (MonitorFacts {
            container_name: container_name@,
            config: config_or_default(config),
            consecutive_failures: 0,
        }),
{
    let config: HealthCheckConfig = match config {
        Some(c) => c,
        None => HealthCheckConfig::default(),
    };
    let _ = stores::map_insert(store, container_name.to_owned(), ContainerHealthState::starting_at(now));
    HealthMonitor { container_name: container_name.to_owned(), config, consecutive_failures: 0 }
}

impl MonitorFacts {
    /// The health of a container once it was looked at for the first time.
    pub open spec fn after_startup(
        self,
        health: HealthFacts,
        error: Option<Seq<char>>,
        failed_at: u128,
        now: u128,
    ) -> HealthFacts {
        match error {
            None => health.moved(HealthState::Starting, None, now),
            Some(e) => health.failed(failed_at).moved(HealthState::Failed, Some("Startup failed: "@ + e), now),
        }
    }

    /// One more failure in a row reaches the threshold.
    pub open spec fn at_threshold(self) -> bool {
        self.consecutive_failures + 1 >= self.config.liveness_failure_threshold
    }

    /// The health of a container once it was looked at.
    pub open spec fn after_probe(self, health: HealthFacts, probe: Probe, failed_at: u128, now: u128) -> HealthFacts {
        match probe {
            Probe::Alive => if health.state == HealthState::Healthy {
                health
            } else {
                health.moved(HealthState::Healthy, None, now)
            },
            Probe::Unreachable => if self.at_threshold() {
                health.failed(failed_at).moved(HealthState::Unhealthy, Some("Health check failed"@), now)
            } else {
                health.failed(failed_at)
            },
            Probe::InspectionFailed(e) => if self.at_threshold() {
                health.failed(failed_at).moved(
                    HealthState::Failed,
                    Some("Container inspection failed: "@ + e@),
                    now,
                )
            } else {
                health.failed(failed_at)
            },
        }
    }

    /// What to do after a look at a container that is on record, or no longer is.
    pub open spec fn step_after(self, on_record: bool, probe: Probe) -> MonitorStep {
        if !on_record || (probe is InspectionFailed && self.at_threshold()) {
            MonitorStep::Stop
        } else {
            MonitorStep::Wait(self.config.liveness_period)
        }
    }

    /// How many failures in a row there are after a look.
    pub open spec fn failures_after(self, probe: Probe) -> int {
        if probe is Alive {
            0
        } else {
            self.consecutive_failures + 1
        }
    }
}

impl HealthMonitor {
    /// Whether the container is looked at once before the watch begins.
    pub fn checks_startup(&self) -> (r: bool)
        ensures
            r == (self@.config.startup_failure_threshold > 0),
    {
        self.config.startup_failure_threshold > 0
    }

    /// Takes in the first look at the container, with the reason where it could
    /// not be inspected. The result says whether the watch begins.
    pub fn startup_checked(&self, store: &mut HealthStore, error: Option<String>, failed_at: u128, now: u128) -> (r: bool)
        requires
            failures_countable(*old(store), self@.container_name),
        ensures
            r == error is None,
            only_health_changed(
                *old(store),
                *final(store),
                self@.container_name,
                match health_of(*old(store), self@.container_name) {
                    Some(h) => Some(self@.after_startup(h, docker::optional_text(error), failed_at, now)),
                    None => None,
                },
            ),
    {
        let r: bool = error.is_none();
        if let Some(status) = stores::map_get_mut(store, self.container_name.as_str()) {
            match error {
                None => {
                    status.transition_to(HealthState::Starting, None, now);
                },
                Some(e) => {
                    status.record_failure(failed_at);
                    let message: String = "Startup failed: ".to_owned().concat(e.as_str());
                    status.transition_to(HealthState::Failed, Some(message), now);
                },
            }
        }
        r
    }

    /// Whether the container is still to be watched.
    pub fn watched(&self, store: &HealthStore) -> (r: bool)
        ensures
            r == health_of(*store, self@.container_name) is Some,
    {
        stores::map_get(store, self.container_name.as_str()).is_some()
    }

    /// Takes in a look at the container. The watch ends where the container is no
    /// longer on record, or could not be inspected too often in a row.
    pub fn monitor_container_health(&mut self, store: &mut HealthStore, probe: Probe, failed_at: u128, now: u128) -> (r:
        MonitorStep)
        requires
            failures_countable(*old(store), old(self)@.container_name),
            old(self)@.consecutive_failures < u32::MAX,
        ensures
            ({
                let m = old(self)@;
                let before = health_of(*old(store), m.container_name);
                &&& final(self)@ == (if before is Some {
                    MonitorFacts { consecutive_failures: m.failures_after(probe) as u32, ..m }
                } else {
                    m
                })
                &&& only_health_changed(
                    *old(store),
                    *final(store),
                    m.container_name,
                    match before {
                        Some(h) => Some(m.after_probe(h, probe, failed_at, now)),
                        None => None,
                    },
                )
                &&& r == (if before is None || (probe is InspectionFailed && m.at_threshold()) {
                    MonitorStep::Stop
                } else {
                    MonitorStep::Wait(m.config.liveness_period)
                })
                &&& r == m.step_after(before is Some, probe)
            }),
    {
        let step: MonitorStep = MonitorStep::Wait(self.config.liveness_period);
        match stores::map_get_mut(store, self.container_name.as_str()) {
            Some(status) => {
                match probe {
                    Probe::Alive => {
                        self.consecutive_failures = 0;
                        if status.state != HealthState::Healthy {
                            status.transition_to(HealthState::Healthy, None, now);
                        }
                        step
                    },
                    Probe::Unreachable => {
                        self.consecutive_failures = self.consecutive_failures + 1;
                        status.record_failure(failed_at);
                        if self.consecutive_failures >= self.config.liveness_failure_threshold {
                            status.transition_to(HealthState::Unhealthy, Some("Health check failed".to_owned()), now);
                        }
                        step
                    },
                    Probe::InspectionFailed(e) => {
                        self.consecutive_failures = self.consecutive_failures + 1;
                        status.record_failure(failed_at);
                        if self.consecutive_failures >= self.config.liveness_failure_threshold {
                            let message: String = "Container inspection failed: ".to_owned().concat(e.as_str());
                            status.transition_to(HealthState::Failed, Some(message), now);
                            MonitorStep::Stop
                        } else {
                            step
                        }
                    },
                }
            },
            None => MonitorStep::Stop,
        }
    }
}

/// How a container is doing.
pub fn get_container_health<'a>(store: &'a HealthStore, container_name: &str) -> (r: Option<&'a ContainerHealthState>)
    ensures
        match r {
            Some(h) => health_of(*store, container_name@) == Some(h@),
            None => health_of(*store, container_name@) is None,
        },
{
    stores::map_get(store, container_name)
}

/// Some containers are on a list.
pub open spec fn on_list(names: Seq<String>, name: Seq<char>) -> bool {
    exists|i: int| 0 <= i < names.len() && (#[trigger] names[i])@ == name
}

/// Ends the watch over some containers.
pub fn forget_containers(store: &mut HealthStore, names: &Vec<String>)
    ensures
        forall|n: Seq<char>| #[trigger]
            health_of(*final(store), n) == (if on_list(names@, n) {
                None
            } else {
                health_of(*old(store), n)
            }),
{
    let mut i: usize = 0;
    while i < names.len()
        invariant
            i <= names@.len(),
            forall|n: Seq<char>| #[trigger]
                health_of(*store, n) == (if on_list(names@.take(i as int), n) {
                    None
                } else {
                    health_of(*old(store), n)
                }),
        decreases names@.len() - i,
    {
        let ghost before = *store;
        let _ = stores::map_remove(store, names[i].as_str());
        proof {
            assert forall|n: Seq<char>| #[trigger]
                health_of(*store, n) == (if on_list(names@.take(i + 1), n) {
                    None
                } else {
                    health_of(*old(store), n)
                }) by {
                let (a, b) = (names@.take(i as int), names@.take(i + 1));
                assert(health_of(before, n) == (if on_list(a, n) {
                    None
                } else {
                    health_of(*old(store), n)
                }));
                assert(b[i as int] == names@[i as int]);
                if on_list(a, n) {
                    let j = choose|j: int| 0 <= j < a.len() && (#[trigger] a[j])@ == n;
                    assert(b[j] == a[j]);
                }
                if on_list(b, n) && n != names@[i as int]@ {
                    let j = choose|j: int| 0 <= j < b.len() && (#[trigger] b[j])@ == n;
                    assert(a[j] == b[j]);
                }
            }
        }
        i = i + 1;
    }
    assert(names@.take(i as int) =~= names@);
}

/// Short of the threshold, a failure is counted and nothing else changes.
pub proof fn no_alarm_below_the_threshold(
    m: MonitorFacts,
    health: HealthFacts,
    probe: Probe,
    failed_at: u128,
    now: u128,
)
    requires
        !(probe is Alive),
        !m.at_threshold(),
    ensures
        m.after_probe(health, probe, failed_at, now) == health.failed(failed_at),
        m.after_probe(health, probe, failed_at, now).state == health.state,
{
}

/// A container that answers is healthy, and starts over with its failures.
pub proof fn an_answer_restores_health(m: MonitorFacts, health: HealthFacts, failed_at: u128, now: u128)
    ensures
        m.after_probe(health, Probe::Alive, failed_at, now).state == HealthState::Healthy,
        m.failures_after(Probe::Alive) == 0,
        m.after_probe(health, Probe::Alive, failed_at, now).failure_count == health.failure_count,
{
}

/// The state before a change is kept as the last state.
pub proof fn changes_keep_the_last_state(health: HealthFacts, state: HealthState, message: Option<Seq<char>>, now: u128)
    ensures
        health.moved(state, message, now).last_state == Some(health.state),
        health.moved(state, message, now).failure_count == health.failure_count,
        health.moved(state, message, now).restart_count == health.restart_count,
{
}

/// A look at a container, and when it was taken in.
pub struct Look {
    pub probe: Probe,
    pub failed_at: u128,
    pub now: u128,
}

/// The monitor and the health of its container after some looks, one after the
/// other.
pub open spec fn after_looks(m: MonitorFacts, health: HealthFacts, looks: Seq<Look>) -> (MonitorFacts, HealthFacts)
    decreases looks.len(),
{
    if looks.len() == 0 {
        (m, health)
    } else {
        let (before, h) = after_looks(m, health, looks.drop_last());
        let l = looks.last();
        (
            MonitorFacts { consecutive_failures: before.failures_after(l.probe) as u32, ..before },
            before.after_probe(h, l.probe, l.failed_at, l.now),
        )
    }
}

/// How many of the looks showed a failure.
pub open spec fn failures(looks: Seq<Look>) -> nat
    decreases looks.len(),
{
    if looks.len() == 0 {
        0
    } else if looks.last().probe is Alive {
        failures(looks.drop_last())
    } else {
        failures(looks.drop_last()) + 1
    }
}

/// How many of the last looks showed a failure, without an answer in between.
pub open spec fn failures_in_a_row(looks: Seq<Look>) -> nat
    decreases looks.len(),
{
    if looks.len() == 0 || looks.last().probe is Alive {
        0
    } else {
        failures_in_a_row(looks.drop_last()) + 1
    }
}

/// However the looks at a container follow on each other, every failure is
/// counted, and the failures in a row are those since the last answer. A
/// container that answered last is healthy. One that did not is unhealthy, or
/// failed where it could not be inspected, once the failures in a row have
/// reached the threshold, and before that is as it was at the last answer, or at
/// the beginning.
pub proof fn health_follows_the_looks(m: MonitorFacts, health: HealthFacts, looks: Seq<Look>)
    requires
        m.consecutive_failures == 0,
        health.failure_count + failures(looks) <= u32::MAX,
    ensures
        ({
            let (monitor, h) = after_looks(m, health, looks);
            let row = failures_in_a_row(looks);
            &&& row <= failures(looks)
            &&& row <= looks.len()
            &&& monitor.consecutive_failures == row
            &&& monitor.config == m.config
            &&& monitor.container_name == m.container_name
            &&& h.failure_count == health.failure_count + failures(looks)
            &&& h.state == (if row > 0 && row >= m.config.liveness_failure_threshold {
                match looks.last().probe {
                    Probe::InspectionFailed(_) => HealthState::Failed,
                    _ => HealthState::Unhealthy,
                }
            } else if row == looks.len() {
                health.state
            } else {
                HealthState::Healthy
            })
            &&& 0 < row < m.config.liveness_failure_threshold ==> h == after_looks(
                m,
                health,
                looks.drop_last(),
            ).1.failed(looks.last().failed_at)
            &&& row > 0 && row >= m.config.liveness_failure_threshold ==> h.message == Some(
                match looks.last().probe {
                    Probe::InspectionFailed(e) => "Container inspection failed: "@ + e@,
                    _ => "Health check failed"@,
                },
            )
        }),
    decreases looks.len(),
{
    if looks.len() > 0 {
        health_follows_the_looks(m, health, looks.drop_last());
    }
}

/// A container that could be looked at starts; one that could not has failed, with the
/// reason, and the failure is counted.
pub proof fn startups_fail_with_their_reason(
    m: MonitorFacts,
    health: HealthFacts,
    e: Seq<char>,
    failed_at: u128,
    now: u128,
)
    requires
        health.failure_count < u32::MAX,
    ensures
        m.after_startup(health, None, failed_at, now).state == HealthState::Starting,
        m.after_startup(health, None, failed_at, now).message is None,
        m.after_startup(health, None, failed_at, now).failure_count == health.failure_count,
        m.after_startup(health, None, failed_at, now).last_state == Some(health.state),
        m.after_startup(health, None, failed_at, now).last_transition == now,
        m.after_startup(health, Some(e), failed_at, now).state == HealthState::Failed,
        m.after_startup(health, Some(e), failed_at, now).message == Some("Startup failed: "@ + e),
        m.after_startup(health, Some(e), failed_at, now).failure_count == health.failure_count + 1,
        m.after_startup(health, Some(e), failed_at, now).last_failure == Some(failed_at),
        m.after_startup(health, Some(e), failed_at, now).last_transition == now,
{
}

/// A look notes its time: of the failure where it failed, and of the change where the
/// state changes. A container that stays healthy is left as it is.
pub proof fn looks_note_their_time(m: MonitorFacts, health: HealthFacts, probe: Probe, failed_at: u128, now: u128)
    requires
        health.failure_count < u32::MAX,
    ensures
        ({
            let after = m.after_probe(health, probe, failed_at, now);
            &&& probe is Alive && health.state == HealthState::Healthy ==> after == health
            &&& !(probe is Alive) ==> after.last_failure == Some(failed_at) && after.failure_count
                == health.failure_count + 1
            &&& probe is Alive ==> after.last_failure == health.last_failure && after.state == HealthState::Healthy
            &&& after.state != health.state ==> after.last_transition == now && after.last_state == Some(health.state)
            &&& after.restart_count == health.restart_count
            &&& after.last_restart == health.last_restart
        }),
{
}

/// A container is watched as its definition says; without a word there every ten
/// seconds, and counts as unhealthy after three failures in a row.
pub proof fn containers_are_watched_as_configured(config: Option<HealthCheckConfig>)
    ensures
        config matches Some(c) ==> config_or_default(config) == c,
        config is None ==> config_or_default(config).liveness_period == 10_000_000_000 && config_or_default(
            config,
        ).liveness_failure_threshold == 3 && config_or_default(config).startup_failure_threshold == 3
            && config_or_default(config).startup_timeout == 30_000_000_000 && config_or_default(config).tcp_check is None,
{
}

/// A change to the health of one container leaves every other as it was.
pub proof fn other_containers_keep_their_health(
    before: HealthStore,
    after: HealthStore,
    name: Seq<char>,
    health: Option<HealthFacts>,
    other: Seq<char>,
)
    requires
        only_health_changed(before, after, name, health),
    ensures
        health_of(after, name) == health,
        other != name ==> health_of(after, other) == health_of(before, other),
        health_of(after, other) matches Some(h) ==> stores::entries(after).contains_key(other) && stores::entries(
            after,
        )[other]@ == h,
        health_of(after, other) is None ==> !stores::entries(after).contains_key(other),
{
}

/// The watch goes on, at the period that is configured, while the container is on record;
/// it ends once it could not be inspected as often in a row as the threshold says. A
/// container that takes no connections is watched on, however often.
pub proof fn watches_end_with_the_container(m: MonitorFacts, e: String)
    ensures
        m.step_after(false, Probe::Alive) == MonitorStep::Stop,
        m.step_after(false, Probe::Unreachable) == MonitorStep::Stop,
        m.step_after(false, Probe::InspectionFailed(e)) == MonitorStep::Stop,
        m.step_after(true, Probe::Alive) == MonitorStep::Wait(m.config.liveness_period),
        m.step_after(true, Probe::Unreachable) == MonitorStep::Wait(m.config.liveness_period),
        m.consecutive_failures + 1 >= m.config.liveness_failure_threshold ==> m.step_after(
            true,
            Probe::InspectionFailed(e),
        ) == MonitorStep::Stop,
        m.consecutive_failures + 1 < m.config.liveness_failure_threshold ==> m.step_after(
            true,
            Probe::InspectionFailed(e),
        ) == MonitorStep::Wait(m.config.liveness_period),
        m.failures_after(Probe::Alive) == 0,
        m.failures_after(Probe::Unreachable) == m.consecutive_failures + 1,
        m.failures_after(Probe::InspectionFailed(e)) == m.consecutive_failures + 1,
{
}

} // verus!
