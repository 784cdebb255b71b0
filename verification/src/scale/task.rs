//! The scaling task of a service that scales by thresholds alone.
//!
//! The task says what to do next; what came of it is handed back as an event.

use crate::config::InstanceCount;
use crate::config::PodStats;
use crate::config::ScaleMessage;
use crate::container::scaling;
use crate::container::scaling::task;
use crate::container::scaling::task::PodContainers;
use crate::container::scaling::task::PodFacts;
use crate::container::scaling::Inspection;
use crate::container::scaling::PodReadings;
use crate::container::scaling::SCALING_PERIOD;
use crate::container::ContainerStats;
use crate::scale;
use crate::scale::ThresholdStep;
use std::collections::HashMap;
use std::sync::Arc;
use vstd::prelude::*;

verus! {

/// What happened.
#[derive(Debug)]
pub enum ThresholdEvent {
    /// The wait is over.
    Elapsed,
    /// A message came for some service.
    Message(String, ScaleMessage),
    /// The service is no longer defined or on record.
    Gone,
    /// The service is defined without thresholds.
    NoThresholds,
    /// The service may have so many pods, and has these.
    Snapshot(InstanceCount, Vec<PodContainers>),
    /// What came of looking at the container.
    Inspected(Inspection),
    /// The endpoints of the pod are gone.
    Withdrawn,
    /// The readings of the pod, put together.
    Aggregated(PodStats),
    /// The pods that have lost a container are gone, and so many are left; nothing
    /// where the service is no longer on record.
    Cleared(Option<usize>),
    /// Whether at least three quarters of the measured pods are overloaded.
    Evaluated(bool),
    /// A pod was started, or could not be.
    Started,
    /// The pod was taken away, or could not be.
    TakenAway,
    /// The proxies are up to date.
    Refreshed,
}

/// What to do.
#[derive(Debug)]
pub enum ThresholdAction {
    /// Nothing more.
    Stop,
    /// Wait so many nanoseconds, or for a message.
    Wait(u128),
    /// Look up the definition and the pods.
    LookUp,
    /// Look at this container.
    Inspect(String),
    /// Take the endpoints of this pod away from behind their proxies.
    Withdraw(u128),
    /// Put the readings of the pod together.
    Aggregate(u128),
    /// Take down the pods that have lost a container.
    Clear,
    /// See whether the measured pods are overloaded.
    Evaluate,
    /// Start a pod.
    StartPod,
    /// Take this pod away.
    TakeAway(u128),
    /// Bring the proxies up to date.
    RefreshProxies,
}

/// What a `ThresholdAction` says.
pub enum Todo {
    Stop,
    Wait(u128),
    LookUp,
    Inspect(Seq<char>),
    Withdraw(u128),
    Aggregate(u128),
    Clear,
    Evaluate,
    StartPod,
    TakeAway(u128),
    RefreshProxies,
}

impl View for ThresholdAction {
    type V = Todo;

    open spec fn view(&self) -> Todo {
        match self {
            ThresholdAction::Stop => Todo::Stop,
            ThresholdAction::Wait(n) => Todo::Wait(*n),
            ThresholdAction::LookUp => Todo::LookUp,
            ThresholdAction::Inspect(s) => Todo::Inspect(s@),
            ThresholdAction::Withdraw(u) => Todo::Withdraw(*u),
            ThresholdAction::Aggregate(u) => Todo::Aggregate(*u),
            ThresholdAction::Clear => Todo::Clear,
            ThresholdAction::Evaluate => Todo::Evaluate,
            ThresholdAction::StartPod => Todo::StartPod,
            ThresholdAction::TakeAway(u) => Todo::TakeAway(*u),
            ThresholdAction::RefreshProxies => Todo::RefreshProxies,
        }
    }
}

/// Where a round stands.
#[derive(Debug)]
enum Stage {
    /// Between rounds.
    Waiting,
    /// The definition and the pods are being looked up.
    LookingUp,
    /// Containers are being looked at, pod by pod.
    Measuring { next_pod: usize, next_container: usize, readings: PodReadings },
    /// The endpoints of a pod that has lost a container are being taken away.
    Withdrawing(usize),
    /// Pods that have lost a container are being taken down.
    Clearing,
    /// A pod is being started in place of those lost; the proxies follow.
    Replacing { refreshing: bool },
    /// The readings are being evaluated.
    Evaluating,
    /// A pod is being started.
    Growing,
    /// A pod is being taken away.
    Shrinking,
    /// The proxies are being brought up to date.
    Refreshing,
    /// The task is over.
    Over,
}

/// What a `Stage` says.
pub enum StageFacts {
    Waiting,
    LookingUp,
    Measuring { next_pod: nat, next_container: nat, stats: Seq<Arc<ContainerStats>>, missing: bool },
    Withdrawing(nat),
    Clearing,
    Replacing { refreshing: bool },
    Evaluating,
    Growing,
    Shrinking,
    Refreshing,
    Over,
}

/// A scaling task by thresholds alone.
#[derive(Debug)]
pub struct ThresholdTask {
    service_name: String,
    paused: bool,
    count: InstanceCount,
    pods: Vec<PodContainers>,
    measured: HashMap<u128, PodStats>,
    missing: Vec<u128>,
    stage: Stage,
}

/// What a `ThresholdTask` says.
pub struct TaskFacts {
    pub service_name: Seq<char>,
    pub paused: bool,
    /// How many pods the service may have.
    pub count: InstanceCount,
    /// The pods of this round.
    pub pods: Seq<PodFacts>,
    /// The pods measured in this round.
    pub measured: Map<u128, PodStats>,
    /// The pods that have lost a container.
    pub missing: Seq<u128>,
    pub stage: StageFacts,
}

impl View for ThresholdTask {
    type V = TaskFacts;

    closed spec fn view(&self) -> TaskFacts {
        TaskFacts {
            service_name: self.service_name@,
            paused: self.paused,
            count: self.count,
            pods: task::pod_facts(self.pods@),
            measured: self.measured@,
            missing: self.missing@,
            stage: match self.stage {
                Stage::Waiting => StageFacts::Waiting,
                Stage::LookingUp => StageFacts::LookingUp,
                Stage::Measuring { next_pod, next_container, readings } => StageFacts::Measuring {
                    next_pod: next_pod as nat,
                    next_container: next_container as nat,
                    stats: readings.stats@,
                    missing: readings.missing,
                },
                Stage::Withdrawing(p) => StageFacts::Withdrawing(p as nat),
                Stage::Clearing => StageFacts::Clearing,
                Stage::Replacing { refreshing } => StageFacts::Replacing { refreshing },
                Stage::Evaluating => StageFacts::Evaluating,
                Stage::Growing => StageFacts::Growing,
                Stage::Shrinking => StageFacts::Shrinking,
                Stage::Refreshing => StageFacts::Refreshing,
                Stage::Over => StageFacts::Over,
            },
        }
    }
}

impl TaskFacts {
    /// In another stage.
    pub open spec fn at(self, stage: StageFacts) -> TaskFacts {
        TaskFacts { stage, ..self }
    }

    /// Between rounds.
    pub open spec fn waiting(self) -> (TaskFacts, Todo) {
        (self.at(StageFacts::Waiting), Todo::Wait(SCALING_PERIOD))
    }

    /// At the start of a round; while paused, the task waits instead.
    pub open spec fn beginning(self) -> (TaskFacts, Todo) {
        if self.paused {
            self.waiting()
        } else {
            (self.at(StageFacts::LookingUp), Todo::LookUp)
        }
    }

    /// Bringing the proxies up to date.
    pub open spec fn refreshing(self) -> (TaskFacts, Todo) {
        (self.at(StageFacts::Refreshing), Todo::RefreshProxies)
    }

    /// Evaluating the readings.
    pub open spec fn evaluating(self) -> (TaskFacts, Todo) {
        (self.at(StageFacts::Evaluating), Todo::Evaluate)
    }

    /// Before the given pod: the first container of the next pod that has any is
    /// looked at. After the last pod, those that have lost a container are taken
    /// down, and then the readings evaluated.
    pub open spec fn from_pod(self, pod: nat) -> (TaskFacts, Todo)
        decreases self.pods.len() - pod,
    {
        if pod >= self.pods.len() {
            if self.missing.len() > 0 {
                (self.at(StageFacts::Clearing), Todo::Clear)
            } else {
                self.evaluating()
            }
        } else if self.pods[pod as int].containers.len() == 0 {
            self.from_pod(pod + 1)
        } else {
            (
                self.at(
                    StageFacts::Measuring { next_pod: pod, next_container: 0, stats: Seq::empty(), missing: false },
                ),
                Todo::Inspect(self.pods[pod as int].containers[0]),
            )
        }
    }

    /// After a look at a container of a pod: the next container of the pod is
    /// looked at. A pod that has lost a container is withdrawn at once. A pod that
    /// is done is put together if something was read, and otherwise passed over.
    pub open spec fn after_container(
        self,
        pod: nat,
        container: nat,
        stats: Seq<Arc<ContainerStats>>,
        missing: bool,
    ) -> (TaskFacts, Todo) {
        let uuid = self.pods[pod as int].uuid;
        if missing {
            (
                TaskFacts { missing: self.missing.push(uuid), ..self }.at(StageFacts::Withdrawing(pod)),
                Todo::Withdraw(uuid),
            )
        } else if container + 1 < self.pods[pod as int].containers.len() {
            (
                self.at(StageFacts::Measuring { next_pod: pod, next_container: container + 1, stats, missing }),
                Todo::Inspect(self.pods[pod as int].containers[container as int + 1]),
            )
        } else if stats.len() > 0 {
            (
                self.at(StageFacts::Measuring { next_pod: pod, next_container: container + 1, stats, missing }),
                Todo::Aggregate(uuid),
            )
        } else {
            self.from_pod(pod + 1)
        }
    }

    /// What is measured belongs to the round.
    pub open spec fn well_formed(self) -> bool {
        match self.stage {
            StageFacts::Measuring { next_pod, next_container, stats, missing } => {
                &&& next_pod < self.pods.len()
                &&& next_container <= self.pods[next_pod as int].containers.len()
                &&& !missing
            },
            StageFacts::Withdrawing(pod) => pod < self.pods.len(),
            _ => true,
        }
    }

    /// A container is being looked at.
    pub open spec fn inspecting(self) -> bool {
        self.stage matches StageFacts::Measuring { next_pod, next_container, stats, missing } && next_container
            < self.pods[next_pod as int].containers.len()
    }

    /// A pod is to be taken away, so that they are sorted by their readings.
    pub open spec fn sorts_for(self, load: bool) -> bool {
        !scale::grows(self.count, self.pods.len(), load) && !load && self.pods.len() > self.count.min
    }

    /// The event is one that can follow.
    pub open spec fn expects(self, event: ThresholdEvent) -> bool {
        match event {
            ThresholdEvent::Elapsed => self.stage is Waiting,
            ThresholdEvent::Message(_, _) => self.stage is Waiting,
            ThresholdEvent::Gone => self.stage is LookingUp,
            ThresholdEvent::NoThresholds => self.stage is LookingUp,
            ThresholdEvent::Snapshot(_, _) => self.stage is LookingUp,
            ThresholdEvent::Inspected(_) => self.inspecting(),
            ThresholdEvent::Withdrawn => self.stage is Withdrawing,
            ThresholdEvent::Aggregated(_) => self.stage is Measuring && !self.inspecting(),
            ThresholdEvent::Cleared(_) => self.stage is Clearing,
            ThresholdEvent::Evaluated(load) => self.stage is Evaluating && (self.sorts_for(load) ==> scaling::comparable(
                self.measured,
            )),
            ThresholdEvent::Started => self.stage is Growing || self.stage == (StageFacts::Replacing {
                refreshing: false,
            }),
            ThresholdEvent::TakenAway => self.stage is Shrinking,
            ThresholdEvent::Refreshed => self.stage is Refreshing || self.stage == (StageFacts::Replacing {
                refreshing: true,
            }),
        }
    }

    /// `out` is how the task goes on after the event.
    pub open spec fn next(self, event: ThresholdEvent, out: (TaskFacts, Todo)) -> bool {
        match event {
            ThresholdEvent::Elapsed => out == self.beginning(),
            ThresholdEvent::Message(name, message) => out == TaskFacts {
                paused: if name@ == self.service_name {
                    scaling::paused_after(self.paused, message)
                } else {
                    self.paused
                },
                ..self
            }.beginning(),
            ThresholdEvent::Gone => out == (self.at(StageFacts::Over), Todo::Stop),
            ThresholdEvent::NoThresholds => out == self.waiting(),
            ThresholdEvent::Snapshot(count, pods) => out == TaskFacts {
                count,
                pods: task::pod_facts(pods@),
                measured: Map::empty(),
                missing: Seq::empty(),
                ..self
            }.from_pod(0),
            ThresholdEvent::Inspected(inspection) => match self.stage {
                StageFacts::Measuring { next_pod, next_container, stats, missing } => {
                    let (stats, missing) = scaling::readings_after(stats, missing, inspection);
                    out == self.after_container(next_pod, next_container, stats, missing)
                },
                _ => true,
            },
            ThresholdEvent::Withdrawn => match self.stage {
                StageFacts::Withdrawing(pod) => out == self.from_pod(pod + 1),
                _ => true,
            },
            ThresholdEvent::Aggregated(reading) => match self.stage {
                StageFacts::Measuring { next_pod, next_container, stats, missing } => {
                    out == TaskFacts {
                        measured: self.measured.insert(self.pods[next_pod as int].uuid, reading),
                        ..self
                    }.from_pod(next_pod + 1)
                },
                _ => true,
            },
            ThresholdEvent::Cleared(left) => if left is Some && left->0 < self.count.min {
                out == (self.at(StageFacts::Replacing { refreshing: false }), Todo::StartPod)
            } else {
                out == self.evaluating()
            },
            ThresholdEvent::Evaluated(load) => if scale::grows(self.count, self.pods.len(), load) {
                out == (self.at(StageFacts::Growing), Todo::StartPod)
            } else if load || self.pods.len() <= self.count.min || self.measured.len() == 0 {
                out == self.waiting()
            } else {
                out.1 matches Todo::TakeAway(u) && scaling::least_used(seq![u], self.measured, 1) && out.0 == self.at(
                    StageFacts::Shrinking,
                )
            },
            ThresholdEvent::Started => if self.stage is Growing {
                out == self.refreshing()
            } else {
                out == (self.at(StageFacts::Replacing { refreshing: true }), Todo::RefreshProxies)
            },
            ThresholdEvent::TakenAway => out == self.refreshing(),
            ThresholdEvent::Refreshed => if self.stage is Refreshing {
                out == self.waiting()
            } else {
                out == self.evaluating()
            },
        }
    }
}

/// How the measuring goes on does not depend on the present stage.
proof fn lemma_from_pod(t: TaskFacts, s: StageFacts, pod: nat)
    ensures
        t.at(s).from_pod(pod) == t.from_pod(pod),
    decreases t.pods.len() - pod,
{
    if pod < t.pods.len() && t.pods[pod as int].containers.len() == 0 {
        lemma_from_pod(t, s, pod + 1);
    }
}

impl ThresholdTask {
    /// A task at the start of its first round.
    pub fn new(service_name: String) -> (r: (ThresholdTask, ThresholdAction))
        ensures
            r.0@.service_name == service_name@,
            !r.0@.paused,
            r.0@.stage is LookingUp,
            r.0@.well_formed(),
            r.1@ == Todo::LookUp,
    {
        let task: ThresholdTask = ThresholdTask {
            service_name,
            paused: false,
            count: InstanceCount { min: 0, max: 0 },
            pods: Vec::new(),
            measured: HashMap::new(),
            missing: Vec::new(),
            stage: Stage::LookingUp,
        };
        (task, ThresholdAction::LookUp)
    }

    /// The pods measured in this round.
    pub fn measured(&self) -> (r: &HashMap<u128, PodStats>)
        ensures
            r@ == self@.measured,
    {
        &self.measured
    }

    /// The pods that have lost a container.
    pub fn missing(&self) -> (r: &Vec<u128>)
        ensures
            r@ == self@.missing,
    {
        &self.missing
    }

    /// The readings of the pod that is to be put together.
    pub fn readings(&self) -> (r: Option<&Vec<Arc<ContainerStats>>>)
        ensures
            match self@.stage {
                StageFacts::Measuring { next_pod, next_container, stats, missing } => r matches Some(v) && v@ == stats,
                _ => r is None,
            },
    {
        match &self.stage {
            Stage::Measuring { next_pod, next_container, readings } => Some(&readings.stats),
            _ => None,
        }
    }

    fn wait(&mut self) -> (r: ThresholdAction)
        ensures
            (final(self)@, r@) == old(self)@.waiting(),
    {
        self.stage = Stage::Waiting;
        ThresholdAction::Wait(SCALING_PERIOD)
    }

    fn begin(&mut self) -> (r: ThresholdAction)
        ensures
            (final(self)@, r@) == old(self)@.beginning(),
    {
        if self.paused {
            return self.wait();
        }
        self.stage = Stage::LookingUp;
        ThresholdAction::LookUp
    }

    fn refresh(&mut self) -> (r: ThresholdAction)
        ensures
            (final(self)@, r@) == old(self)@.refreshing(),
    {
        self.stage = Stage::Refreshing;
        ThresholdAction::RefreshProxies
    }

    fn evaluate(&mut self) -> (r: ThresholdAction)
        ensures
            (final(self)@, r@) == old(self)@.evaluating(),
    {
        self.stage = Stage::Evaluating;
        ThresholdAction::Evaluate
    }

    fn measure_from(&mut self, pod: usize) -> (r: ThresholdAction)
        ensures
            (final(self)@, r@) == old(self)@.from_pod(pod as nat),
            final(self)@.well_formed(),
    {
        let mut p: usize = pod;
        while p < self.pods.len() && self.pods[p].containers.len() == 0
            invariant
                *self == *old(self),
                old(self)@.from_pod(pod as nat) == old(self)@.from_pod(p as nat),
            decreases self.pods@.len() - p,
        {
            assert(self@.pods[p as int].containers =~= Seq::empty());
            p = p + 1;
        }
        if p >= self.pods.len() {
            if self.missing.len() > 0 {
                self.stage = Stage::Clearing;
                return ThresholdAction::Clear;
            }
            return self.evaluate();
        }
        let name: String = self.pods[p].containers[0].clone();
        assert(self@.pods[p as int].containers[0] == name@);
        let readings: PodReadings = PodReadings::new();
        assert(readings.stats@ =~= Seq::empty());
        self.stage = Stage::Measuring { next_pod: p, next_container: 0, readings };
        ThresholdAction::Inspect(name)
    }

    /// Takes in an event, and says what to do next.
    pub fn on_event(&mut self, event: ThresholdEvent) -> (r: ThresholdAction)
        requires
            old(self)@.well_formed(),
            old(self)@.expects(event),
        ensures
            old(self)@.next(event, (final(self)@, r@)),
            final(self)@.well_formed(),
    {
        match event {
            ThresholdEvent::Elapsed => self.begin(),
            ThresholdEvent::Message(name, message) => {
                self.paused = scaling::on_message(
                    self.paused,
                    self.service_name.as_str(),
                    name.as_str(),
                    message,
                );
                self.begin()
            },
            ThresholdEvent::Gone => {
                self.stage = Stage::Over;
                ThresholdAction::Stop
            },
            ThresholdEvent::NoThresholds => self.wait(),
            ThresholdEvent::Snapshot(count, pods) => {
                self.count = count;
                self.pods = pods;
                self.measured = HashMap::new();
                self.missing = Vec::new();
                self.measure_from(0)
            },
            ThresholdEvent::Inspected(inspection) => self.inspected(inspection),
            ThresholdEvent::Withdrawn => {
                let pod: usize = match &self.stage {
                    Stage::Withdrawing(p) => *p,
                    _ => 0,
                };
                let total: usize = self.pods.len();
                assert(pod < total);
                self.measure_from(pod + 1)
            },
            ThresholdEvent::Aggregated(reading) => self.aggregated(reading),
            ThresholdEvent::Cleared(left) => {
                if let Some(n) = left {
                    if scale::replacement_due(n, &self.count) {
                        self.stage = Stage::Replacing { refreshing: false };
                        return ThresholdAction::StartPod;
                    }
                }
                self.evaluate()
            },
            ThresholdEvent::Evaluated(load) => {
                match scale::threshold_step(&self.count, self.pods.len(), load, &self.measured) {
                    ThresholdStep::Grow => {
                        self.stage = Stage::Growing;
                        ThresholdAction::StartPod
                    },
                    ThresholdStep::Shrink(u) => {
                        self.stage = Stage::Shrinking;
                        ThresholdAction::TakeAway(u)
                    },
                    ThresholdStep::Stay => self.wait(),
                }
            },
            ThresholdEvent::Started => {
                let growing: bool = match &self.stage {
                    Stage::Growing => true,
                    _ => false,
                };
                if growing {
                    return self.refresh();
                }
                self.stage = Stage::Replacing { refreshing: true };
                ThresholdAction::RefreshProxies
            },
            ThresholdEvent::TakenAway => self.refresh(),
            ThresholdEvent::Refreshed => {
                let last: bool = match &self.stage {
                    Stage::Refreshing => true,
                    _ => false,
                };
                if last {
                    return self.wait();
                }
                self.evaluate()
            },
        }
    }

    fn take_stage(&mut self) -> (r: Stage)
        ensures
            r == old(self).stage,
            final(self).service_name == old(self).service_name,
            final(self).paused == old(self).paused,
            final(self).count == old(self).count,
            final(self).pods == old(self).pods,
            final(self).measured == old(self).measured,
            final(self).missing == old(self).missing,
    {
        let mut stage: Stage = Stage::Over;
        std::mem::swap(&mut stage, &mut self.stage);
        stage
    }

    fn inspected(&mut self, inspection: Inspection) -> (r: ThresholdAction)
        requires
            old(self)@.well_formed(),
            old(self)@.inspecting(),
        ensures
            old(self)@.next(ThresholdEvent::Inspected(inspection), (final(self)@, r@)),
            final(self)@.well_formed(),
    {
        let stage: Stage = self.take_stage();
        match stage {
            Stage::Measuring { next_pod, next_container, readings } => {
                let mut readings: PodReadings = readings;
                let _ = readings.record(inspection);
                let total: usize = self.pods.len();
                assert(next_pod < total);
                assert(self@.pods[next_pod as int].containers.len() == self.pods@[next_pod as int].containers@.len());
                let uuid: u128 = self.pods[next_pod].uuid;
                if readings.missing {
                    self.missing.push(uuid);
                    self.stage = Stage::Withdrawing(next_pod);
                    return ThresholdAction::Withdraw(uuid);
                }
                let count: usize = self.pods[next_pod].containers.len();
                if next_container + 1 < count {
                    let name: String = self.pods[next_pod].containers[next_container + 1].clone();
                    assert(self@.pods[next_pod as int].containers[next_container + 1] == name@);
                    self.stage = Stage::Measuring { next_pod, next_container: next_container + 1, readings };
                    return ThresholdAction::Inspect(name);
                }
                if readings.counts() {
                    self.stage = Stage::Measuring { next_pod, next_container: next_container + 1, readings };
                    return ThresholdAction::Aggregate(uuid);
                }
                proof {
                    lemma_from_pod(old(self)@, self@.stage, next_pod as nat + 1);
                }
                self.measure_from(next_pod + 1)
            },
            _ => ThresholdAction::Stop,
        }
    }

    fn aggregated(&mut self, reading: PodStats) -> (r: ThresholdAction)
        requires
            old(self)@.well_formed(),
            old(self)@.stage is Measuring,
        ensures
            old(self)@.next(ThresholdEvent::Aggregated(reading), (final(self)@, r@)),
            final(self)@.well_formed(),
    {
        let pod: usize = match &self.stage {
            Stage::Measuring { next_pod, next_container, readings } => *next_pod,
            _ => 0,
        };
        let total: usize = self.pods.len();
        assert(pod < total);
        let uuid: u128 = self.pods[pod].uuid;
        assert(self@.pods[pod as int].uuid == uuid);
        let _ = self.measured.insert(uuid, reading);
        self.measure_from(pod + 1)
    }
}

/// A paused task does nothing but wait between rounds, until it is told to go on.
pub proof fn paused_tasks_only_wait(t: TaskFacts, out: (TaskFacts, Todo))
    requires
        t.paused,
        t.stage is Waiting,
        t.next(ThresholdEvent::Elapsed, out),
    ensures
        out.0 == t,
        out.1 == Todo::Wait(SCALING_PERIOD),
{
}

/// A pod that has lost a container is withdrawn at once and taken down before the
/// readings are evaluated.
pub proof fn missing_pods_are_cleared_first(t: TaskFacts, pod: nat)
    requires
        t.missing.len() > 0,
        pod >= t.pods.len(),
    ensures
        t.from_pod(pod) == (t.at(StageFacts::Clearing), Todo::Clear),
{
}

/// Under load no pod is taken away, and at the minimum none is either.
pub proof fn pods_stay_under_load_and_at_the_minimum(t: TaskFacts, load: bool, out: (TaskFacts, Todo))
    requires
        t.next(ThresholdEvent::Evaluated(load), out),
        load || t.pods.len() <= t.count.min,
    ensures
        !(out.1 is TakeAway),
{
}

/// The pods before a later one are passed over exactly where they have no containers; the
/// round goes on with the first container of the next pod that has any. After the last,
/// the pods that lost a container are cleared away, if there are any, and otherwise the
/// readings evaluated.
proof fn lemma_next_pod(t: TaskFacts, pod: nat) -> (q: int)
    ensures
        pod <= q,
        forall|i: int| pod <= i < q && i < t.pods.len() ==> (#[trigger] t.pods[i]).containers.len() == 0,
        q < t.pods.len() ==> t.pods[q].containers.len() > 0 && t.from_pod(pod).1 == Todo::Inspect(
            t.pods[q].containers[0],
        ),
        q >= t.pods.len() && t.missing.len() > 0 ==> t.from_pod(pod).1 == Todo::Clear,
        q >= t.pods.len() && t.missing.len() == 0 ==> t.from_pod(pod).1 == Todo::Evaluate,
        t.from_pod(pod).0 == t.at(t.from_pod(pod).0.stage),
    decreases t.pods.len() - pod,
{
    if pod < t.pods.len() && t.pods[pod as int].containers.len() == 0 {
        lemma_next_pod(t, pod + 1)
    } else {
        pod as int
    }
}

/// In a round the containers of a pod are looked at one after the other. A pod that has
/// lost one is noted and withdrawn at once; one of which something was read is put
/// together after its last container; any other is left for the next pod with containers.
pub proof fn rounds_look_at_every_container(
    t: TaskFacts,
    inspection: Inspection,
    out: (TaskFacts, Todo),
    pod: nat,
    container: nat,
    stats: Seq<Arc<ContainerStats>>,
) -> (q: int)
    requires
        t.well_formed(),
        t.stage == (StageFacts::Measuring { next_pod: pod, next_container: container, stats, missing: false }),
        container < t.pods[pod as int].containers.len(),
        t.next(ThresholdEvent::Inspected(inspection), out),
    ensures
        ({
            let lost = inspection matches Inspection::Failed(e) && (scaling::holds_text(e@, "404"@)
                || scaling::holds_text(e@, "No such container"@));
            let read = match inspection {
                Inspection::Stats(s) => stats.push(s),
                _ => stats,
            };
            let names = t.pods[pod as int].containers;
            let uuid = t.pods[pod as int].uuid;
            &&& out.0.pods == t.pods && out.0.measured == t.measured && out.0.paused == t.paused && out.0.count == t.count
                && out.0.service_name == t.service_name
            &&& lost ==> out.1 == Todo::Withdraw(uuid) && out.0.missing == t.missing.push(uuid)
            &&& !lost ==> out.0.missing == t.missing
            &&& !lost && container + 1 < names.len() ==> out.1 == Todo::Inspect(names[container as int + 1])
            &&& !lost && container + 1 == names.len() && read.len() > 0 ==> out.1 == Todo::Aggregate(uuid)
            &&& !lost && container + 1 == names.len() && read.len() == 0 ==> {
                &&& pod < q
                &&& forall|i: int| pod < i < q && i < t.pods.len() ==> (#[trigger] t.pods[i]).containers.len() == 0
                &&& q < t.pods.len() ==> t.pods[q].containers.len() > 0 && out.1 == Todo::Inspect(
                    t.pods[q].containers[0],
                )
                &&& q >= t.pods.len() && t.missing.len() > 0 ==> out.1 == Todo::Clear
                &&& q >= t.pods.len() && t.missing.len() == 0 ==> out.1 == Todo::Evaluate
            }
        }),
{
    if let Inspection::Failed(e) = inspection {
        scaling::missing_containers_are_told_by_their_error(e@);
    }
    lemma_next_pod(t, pod + 1)
}

/// A round replaces what was lost below the minimum, then grows under load or below the
/// minimum, or takes away the least used pod above the minimum without load; after each
/// change the proxies are brought up to date, and between rounds the task waits ten
/// seconds.
pub proof fn rounds_follow_the_load(t: TaskFacts, load: bool, left: Option<usize>, out: (TaskFacts, Todo))
    ensures
        t.next(ThresholdEvent::Cleared(left), out) ==> {
            &&& (left matches Some(n) && n < t.count.min) ==> out.1 == Todo::StartPod
            &&& !(left matches Some(n) && n < t.count.min) ==> out.1 == Todo::Evaluate
        },
        t.next(ThresholdEvent::Evaluated(load), out) ==> {
            let current = t.pods.len();
            &&& (load && current < t.count.max) || current < t.count.min ==> out.1 == Todo::StartPod
            &&& !load && current > t.count.min && t.measured.len() > 0 ==> (out.1 matches Todo::TakeAway(u)
                && t.measured.contains_key(u) && forall|k: u128| #[trigger]
                t.measured.contains_key(k) ==> !t.measured[u].cpu_percentage.above(t.measured[k].cpu_percentage))
            &&& load && current >= t.count.max && current >= t.count.min ==> out.1 == Todo::Wait(10_000_000_000)
            &&& !load && current == t.count.min ==> out.1 == Todo::Wait(10_000_000_000)
            &&& out.0 == t.at(out.0.stage)
        },
        t.stage is Growing && t.next(ThresholdEvent::Started, out) ==> out.1 == Todo::RefreshProxies,
        t.next(ThresholdEvent::TakenAway, out) ==> out.1 == Todo::RefreshProxies,
        t.stage is Refreshing && t.next(ThresholdEvent::Refreshed, out) ==> out.1 == Todo::Wait(10_000_000_000),
        t.next(ThresholdEvent::NoThresholds, out) ==> out.1 == Todo::Wait(10_000_000_000),
        t.next(ThresholdEvent::Gone, out) ==> out.1 == Todo::Stop,
{
    let current = t.pods.len();
    if t.next(ThresholdEvent::Evaluated(load), out) && !load && current > t.count.min && t.measured.len() > 0 {
        if let Todo::TakeAway(u) = out.1 {
            let list = seq![u];
            assert(scaling::least_used(list, t.measured, 1));
            assert(list[0] == u);
            assert forall|k: u128| #[trigger] t.measured.contains_key(k) implies !t.measured[u].cpu_percentage.above(
                t.measured[k].cpu_percentage,
            ) by {
                scaling::the_least_used_pods_go(list, t.measured, 1, 0, k);
                if list.contains(k) {
                    assert(k == u);
                }
            }
        }
    }
}

/// Between rounds the task waits for its time or for word about its service, and begins
/// the next round unless it is paused.
pub proof fn rounds_begin_unless_paused(t: TaskFacts, name: String, message: ScaleMessage, out: (TaskFacts, Todo))
    ensures
        t.next(ThresholdEvent::Elapsed, out) ==> out.0.paused == t.paused,
        t.next(ThresholdEvent::Message(name, message), out) && name@ != t.service_name ==> out.0.paused == t.paused,
        t.next(ThresholdEvent::Message(name, message), out) && name@ == t.service_name ==> out.0.paused == (message
            == ScaleMessage::ConfigUpdate || message == ScaleMessage::RollingUpdate),
        t.next(ThresholdEvent::Elapsed, out) || t.next(ThresholdEvent::Message(name, message), out) ==> {
            &&& out.0.paused ==> out.1 == Todo::Wait(10_000_000_000)
            &&& !out.0.paused ==> out.1 == Todo::LookUp
        },
{
}

} // verus!
