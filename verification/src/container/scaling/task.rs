//! The scaling task of a service: rounds of measuring, deciding and acting.
//!
//! The task says what to do next; what came of it is handed back as an event.

use crate::config::PodStats;
use crate::config::ScaleMessage;
use crate::container::lifecycle;
use crate::container::scaling;
use crate::container::scaling::manager::ScalingDecision;
use crate::container::scaling::Inspection;
use crate::container::scaling::PodReadings;
use crate::container::scaling::ScalingStep;
use crate::container::scaling::SCALING_PERIOD;
use crate::container::ContainerStats;
use std::collections::HashMap;
use std::sync::Arc;
use vstd::prelude::*;

verus! {

/// The containers of a pod.
#[derive(Debug)]
pub struct PodContainers {
    pub uuid: u128,
    pub containers: Vec<String>,
}

/// What happened.
#[derive(Debug)]
pub enum TaskEvent {
    /// The wait is over.
    Elapsed,
    /// A message came for some service.
    Message(String, ScaleMessage),
    /// The service is no longer defined or on record.
    Gone,
    /// The service is defined with this minimum, and has these pods.
    Snapshot(usize, Vec<PodContainers>),
    /// What came of looking at the container.
    Inspected(Inspection),
    /// The readings of the pod, put together.
    Aggregated(PodStats),
    /// The decision; nothing where it took too long.
    Decided(Option<ScalingDecision>),
    /// Whether the pod was started.
    Started(bool),
    /// Whether the pod was taken away.
    TakenAway(bool),
    /// The proxies are up to date.
    Refreshed,
}

/// What to do.
#[derive(Debug)]
pub enum TaskAction {
    /// Nothing more.
    Stop,
    /// Wait so many nanoseconds, or for a message.
    Wait(u128),
    /// Look up the definition and the pods.
    LookUp,
    /// Look at this container.
    Inspect(String),
    /// Put the readings of the pod together.
    Aggregate(u128),
    /// Decide by the pods measured.
    Evaluate,
    /// Start a pod.
    StartPod,
    /// Take this pod away.
    TakeAway(u128),
    /// Bring the proxies up to date.
    RefreshProxies,
}

/// What a `TaskAction` says.
pub enum Todo {
    Stop,
    Wait(u128),
    LookUp,
    Inspect(Seq<char>),
    Aggregate(u128),
    Evaluate,
    StartPod,
    TakeAway(u128),
    RefreshProxies,
}

impl View for TaskAction {
    type V = Todo;

    open spec fn view(&self) -> Todo {
        match self {
            TaskAction::Stop => Todo::Stop,
            TaskAction::Wait(n) => Todo::Wait(*n),
            TaskAction::LookUp => Todo::LookUp,
            TaskAction::Inspect(s) => Todo::Inspect(s@),
            TaskAction::Aggregate(u) => Todo::Aggregate(*u),
            TaskAction::Evaluate => Todo::Evaluate,
            TaskAction::StartPod => Todo::StartPod,
            TaskAction::TakeAway(u) => Todo::TakeAway(*u),
            TaskAction::RefreshProxies => Todo::RefreshProxies,
        }
    }
}

/// Where a round stands.
#[derive(Debug)]
enum Stage {
    /// Between rounds.
    Waiting,
    /// The definition and the pods are being looked up.
    LookingUp,
    /// Containers are being looked at, pod by pod.
    Measuring { next_pod: usize, next_container: usize, readings: PodReadings },
    /// The decision is being made.
    Deciding,
    /// So many pods are still to be started, one of them now.
    Growing(u32),
    /// The pods to take away, and how many of them have gone.
    Shrinking(Vec<u128>, usize),
    /// The proxies are being brought up to date.
    Refreshing,
    /// The task is over.
    Over,
}

/// What a `Stage` says.
pub enum StageFacts {
    Waiting,
    LookingUp,
    Measuring { next_pod: nat, next_container: nat, stats: Seq<Arc<ContainerStats>>, missing: bool },
    Deciding,
    Growing(nat),
    Shrinking(Seq<u128>, nat),
    Refreshing,
    Over,
}

/// A scaling task.
#[derive(Debug)]
pub struct ScalingTask {
    service_name: String,
    paused: bool,
    min_count: usize,
    pods: Vec<PodContainers>,
    measured: HashMap<u128, PodStats>,
    stage: Stage,
}

/// What a `PodContainers` says.
pub struct PodFacts {
    pub uuid: u128,
    pub containers: Seq<Seq<char>>,
}

/// What a `ScalingTask` says.
pub struct TaskFacts {
    pub service_name: Seq<char>,
    pub paused: bool,
    /// The minimum number of pods.
    pub min_count: nat,
    /// The pods of this round.
    pub pods: Seq<PodFacts>,
    /// The pods measured in this round.
    pub measured: Map<u128, PodStats>,
    pub stage: StageFacts,
}

/// Some pods, as they read.
pub open spec fn pod_facts(pods: Seq<PodContainers>) -> Seq<PodFacts> {
    pods.map_values(
        |p: PodContainers| PodFacts { uuid: p.uuid, containers: lifecycle::texts(p.containers@) },
    )
}

impl View for ScalingTask {
    type V = TaskFacts;

    closed spec fn view(&self) -> TaskFacts {
        TaskFacts {
            service_name: self.service_name@,
            paused: self.paused,
            min_count: self.min_count as nat,
            pods: pod_facts(self.pods@),
            measured: self.measured@,
            stage: match self.stage {
                Stage::Waiting => StageFacts::Waiting,
                Stage::LookingUp => StageFacts::LookingUp,
                Stage::Measuring { next_pod, next_container, readings } => StageFacts::Measuring {
                    next_pod: next_pod as nat,
                    next_container: next_container as nat,
                    stats: readings.stats@,
                    missing: readings.missing,
                },
                Stage::Deciding => StageFacts::Deciding,
                Stage::Growing(n) => StageFacts::Growing(n as nat),
                Stage::Shrinking(list, n) => StageFacts::Shrinking(list@, n as nat),
                Stage::Refreshing => StageFacts::Refreshing,
                Stage::Over => StageFacts::Over,
            },
        }
    }
}

impl TaskFacts {
    /// In another stage.
    pub open spec fn at(self, stage: StageFacts) -> TaskFacts {
        TaskFacts { stage, ..self }
    }

    /// Between rounds.
    pub open spec fn waiting(self) -> (TaskFacts, Todo) {
        (self.at(StageFacts::Waiting), Todo::Wait(SCALING_PERIOD))
    }

    /// At the start of a round; while paused, the task waits instead.
    pub open spec fn beginning(self) -> (TaskFacts, Todo) {
        if self.paused {
            self.waiting()
        } else {
            (self.at(StageFacts::LookingUp), Todo::LookUp)
        }
    }

    /// Bringing the proxies up to date.
    pub open spec fn refreshing(self) -> (TaskFacts, Todo) {
        (self.at(StageFacts::Refreshing), Todo::RefreshProxies)
    }

    /// Before the given pod: the first container of the next pod that has any is
    /// looked at; after the last pod comes the decision.
    pub open spec fn from_pod(self, pod: nat) -> (TaskFacts, Todo)
        decreases self.pods.len() - pod,
    {
        if pod >= self.pods.len() {
            (self.at(StageFacts::Deciding), Todo::Evaluate)
        } else if self.pods[pod as int].containers.len() == 0 {
            self.from_pod(pod + 1)
        } else {
            (
                self.at(
                    StageFacts::Measuring { next_pod: pod, next_container: 0, stats: Seq::empty(), missing: false },
                ),
                Todo::Inspect(self.pods[pod as int].containers[0]),
            )
        }
    }

    /// After a look at a container of a pod: the next container of the pod is
    /// looked at. A pod that is done is put together if it is whole and something
    /// was read, and otherwise passed over.
    pub open spec fn after_container(
        self,
        pod: nat,
        container: nat,
        stats: Seq<Arc<ContainerStats>>,
        missing: bool,
    ) -> (TaskFacts, Todo) {
        if !missing && container + 1 < self.pods[pod as int].containers.len() {
            (
                self.at(StageFacts::Measuring { next_pod: pod, next_container: container + 1, stats, missing }),
                Todo::Inspect(self.pods[pod as int].containers[container as int + 1]),
            )
        } else if !missing && stats.len() > 0 {
            (
                self.at(StageFacts::Measuring { next_pod: pod, next_container: container + 1, stats, missing }),
                Todo::Aggregate(self.pods[pod as int].uuid),
            )
        } else {
            self.from_pod(pod + 1)
        }
    }

    /// What is measured belongs to the round, there is always one more pod to start
    /// or to take away, and those to be taken away leave the minimum.
    pub open spec fn well_formed(self) -> bool {
        match self.stage {
            StageFacts::Measuring { next_pod, next_container, stats, missing } => {
                &&& next_pod < self.pods.len()
                &&& next_container <= self.pods[next_pod as int].containers.len()
            },
            StageFacts::Growing(left) => left > 0,
            StageFacts::Shrinking(list, gone) => {
                &&& gone < list.len()
                &&& list.no_duplicates()
                &&& list.len() + self.min_count <= self.pods.len()
            },
            _ => true,
        }
    }

    /// A container is being looked at.
    pub open spec fn inspecting(self) -> bool {
        self.stage matches StageFacts::Measuring { next_pod, next_container, stats, missing } && next_container
            < self.pods[next_pod as int].containers.len()
    }

    /// The decision takes pods away, so that they are sorted by their readings.
    pub open spec fn sorts_for(self, decision: Option<ScalingDecision>) -> bool {
        decision matches Some(ScalingDecision::ScaleDown(n)) && n > 0 && self.pods.len() > self.min_count
    }

    /// The event is one that can follow.
    pub open spec fn expects(self, event: TaskEvent) -> bool {
        match event {
            TaskEvent::Elapsed => self.stage is Waiting,
            TaskEvent::Message(_, _) => self.stage is Waiting,
            TaskEvent::Gone => self.stage is LookingUp,
            TaskEvent::Snapshot(_, _) => self.stage is LookingUp,
            TaskEvent::Inspected(_) => self.inspecting(),
            TaskEvent::Aggregated(_) => self.stage is Measuring && !self.inspecting(),
            TaskEvent::Decided(decision) => self.stage is Deciding && (self.sorts_for(decision) ==> scaling::comparable(
                self.measured,
            )),
            TaskEvent::Started(_) => self.stage is Growing,
            TaskEvent::TakenAway(_) => self.stage is Shrinking,
            TaskEvent::Refreshed => self.stage is Refreshing,
        }
    }

    /// `out` is how the task goes on after the event.
    pub open spec fn next(self, event: TaskEvent, out: (TaskFacts, Todo)) -> bool {
        match event {
            TaskEvent::Elapsed => out == self.beginning(),
            TaskEvent::Message(name, message) => out == TaskFacts {
                paused: if name@ == self.service_name {
                    scaling::paused_after(self.paused, message)
                } else {
                    self.paused
                },
                ..self
            }.beginning(),
            TaskEvent::Gone => out == (self.at(StageFacts::Over), Todo::Stop),
            TaskEvent::Snapshot(min, pods) => out == TaskFacts {
                min_count: min as nat,
                pods: pod_facts(pods@),
                measured: Map::empty(),
                ..self
            }.from_pod(0),
            TaskEvent::Inspected(inspection) => match self.stage {
                StageFacts::Measuring { next_pod, next_container, stats, missing } => {
                    let (stats, missing) = scaling::readings_after(stats, missing, inspection);
                    out == self.after_container(next_pod, next_container, stats, missing)
                },
                _ => true,
            },
            TaskEvent::Aggregated(reading) => match self.stage {
                StageFacts::Measuring { next_pod, next_container, stats, missing } => {
                    out == TaskFacts {
                        measured: self.measured.insert(self.pods[next_pod as int].uuid, reading),
                        ..self
                    }.from_pod(next_pod + 1)
                },
                _ => true,
            },
            TaskEvent::Decided(decision) => match decision {
                Some(ScalingDecision::ScaleUp(n)) => if n == 0 {
                    out == self.refreshing()
                } else {
                    out == (self.at(StageFacts::Growing(n as nat)), Todo::StartPod)
                },
                Some(ScalingDecision::ScaleDown(n)) => if self.pods.len() <= self.min_count {
                    out == self.beginning()
                } else if n == 0 || self.measured.len() == 0 {
                    out == self.waiting()
                } else {
                    exists|list: Seq<u128>|
                        {
                            &&& #[trigger] scaling::least_used(
                                list,
                                self.measured,
                                scaling::shrink_count(self.pods.len(), self.min_count, n as nat),
                            )
                            &&& list.len() > 0
                            &&& out == (self.at(StageFacts::Shrinking(list, 0)), Todo::TakeAway(list[0]))
                        }
                },
                _ => out == self.waiting(),
            },
            TaskEvent::Started(ok) => match self.stage {
                StageFacts::Growing(left) => if ok && left > 1 {
                    out == (self.at(StageFacts::Growing((left - 1) as nat)), Todo::StartPod)
                } else {
                    out == self.refreshing()
                },
                _ => true,
            },
            TaskEvent::TakenAway(ok) => match self.stage {
                StageFacts::Shrinking(list, gone) => if ok && gone + 1 < list.len() {
                    out == (self.at(StageFacts::Shrinking(list, gone + 1)), Todo::TakeAway(list[gone as int + 1]))
                } else if ok || gone > 0 {
                    out == self.refreshing()
                } else {
                    out == self.waiting()
                },
                _ => true,
            },
            TaskEvent::Refreshed => out == self.waiting(),
        }
    }
}

/// How the measuring goes on does not depend on the present stage.
proof fn lemma_from_pod(t: TaskFacts, s: StageFacts, pod: nat)
    ensures
        t.at(s).from_pod(pod) == t.from_pod(pod),
    decreases t.pods.len() - pod,
{
    if pod < t.pods.len() && t.pods[pod as int].containers.len() == 0 {
        lemma_from_pod(t, s, pod + 1);
    }
}

impl ScalingTask {
    /// A task at the start of its first round.
    pub fn new(service_name: String) -> (r: (ScalingTask, TaskAction))
        ensures
            r.0@.service_name == service_name@,
            !r.0@.paused,
            r.0@.stage is LookingUp,
            r.0@.well_formed(),
            r.1@ == Todo::LookUp,
    {
        let task: ScalingTask = ScalingTask {
            service_name,
            paused: false,
            min_count: 0,
            pods: Vec::new(),
            measured: HashMap::new(),
            stage: Stage::LookingUp,
        };
        (task, TaskAction::LookUp)
    }

    /// The pods measured in this round.
    pub fn measured(&self) -> (r: &HashMap<u128, PodStats>)
        ensures
            r@ == self@.measured,
    {
        &self.measured
    }

    /// How many pods the round began with.
    pub fn pod_count(&self) -> (r: usize)
        ensures
            r == self@.pods.len(),
    {
        self.pods.len()
    }

    /// The readings of the pod that is to be put together.
    pub fn readings(&self) -> (r: Option<&Vec<Arc<ContainerStats>>>)
        ensures
            match self@.stage {
                StageFacts::Measuring { next_pod, next_container, stats, missing } => r matches Some(v) && v@ == stats,
                _ => r is None,
            },
    {
        match &self.stage {
            Stage::Measuring { next_pod, next_container, readings } => Some(&readings.stats),
            _ => None,
        }
    }

    fn wait(&mut self) -> (r: TaskAction)
        ensures
            (final(self)@, r@) == old(self)@.waiting(),
    {
        self.stage = Stage::Waiting;
        TaskAction::Wait(SCALING_PERIOD)
    }

    fn begin(&mut self) -> (r: TaskAction)
        ensures
            (final(self)@, r@) == old(self)@.beginning(),
    {
        if self.paused {
            return self.wait();
        }
        self.stage = Stage::LookingUp;
        TaskAction::LookUp
    }

    fn refresh(&mut self) -> (r: TaskAction)
        ensures
            (final(self)@, r@) == old(self)@.refreshing(),
    {
        self.stage = Stage::Refreshing;
        TaskAction::RefreshProxies
    }

    fn measure_from(&mut self, pod: usize) -> (r: TaskAction)
        ensures
            (final(self)@, r@) == old(self)@.from_pod(pod as nat),
            final(self)@.well_formed(),
    {
        let mut p: usize = pod;
        while p < self.pods.len() && self.pods[p].containers.len() == 0
            invariant
                *self == *old(self),
                old(self)@.from_pod(pod as nat) == old(self)@.from_pod(p as nat),
            decreases self.pods@.len() - p,
        {
            assert(self@.pods[p as int].containers =~= Seq::empty());
            p = p + 1;
        }
        if p >= self.pods.len() {
            self.stage = Stage::Deciding;
            return TaskAction::Evaluate;
        }
        let name: String = self.pods[p].containers[0].clone();
        assert(self@.pods[p as int].containers[0] == name@);
        let readings: PodReadings = PodReadings::new();
        assert(readings.stats@ =~= Seq::empty());
        self.stage = Stage::Measuring { next_pod: p, next_container: 0, readings };
        TaskAction::Inspect(name)
    }

    /// Takes in an event, and says what to do next.
    pub fn on_event(&mut self, event: TaskEvent) -> (r: TaskAction)
        requires
            old(self)@.well_formed(),
            old(self)@.expects(event),
        ensures
            old(self)@.next(event, (final(self)@, r@)),
            final(self)@.well_formed(),
    {
        match event {
            TaskEvent::Elapsed => self.begin(),
            TaskEvent::Message(name, message) => {
                self.paused = scaling::on_message(
                    self.paused,
                    self.service_name.as_str(),
                    name.as_str(),
                    message,
                );
                self.begin()
            },
            TaskEvent::Gone => {
                self.stage = Stage::Over;
                TaskAction::Stop
            },
            TaskEvent::Snapshot(min, pods) => {
                self.min_count = min;
                self.pods = pods;
                self.measured = HashMap::new();
                self.measure_from(0)
            },
            TaskEvent::Inspected(inspection) => self.inspected(inspection),
            TaskEvent::Aggregated(reading) => self.aggregated(reading),
            TaskEvent::Decided(decision) => self.decided(decision),
            TaskEvent::Started(ok) => {
                let left: u32 = match &self.stage {
                    Stage::Growing(n) => *n,
                    _ => 0,
                };
                if ok && left > 1 {
                    self.stage = Stage::Growing(left - 1);
                    return TaskAction::StartPod;
                }
                self.refresh()
            },
            TaskEvent::TakenAway(ok) => self.taken_away(ok),
            TaskEvent::Refreshed => self.wait(),
        }
    }

    fn inspected(&mut self, inspection: Inspection) -> (r: TaskAction)
        requires
            old(self)@.well_formed(),
            old(self)@.inspecting(),
        ensures
            old(self)@.next(TaskEvent::Inspected(inspection), (final(self)@, r@)),
            final(self)@.well_formed(),
    {
        let stage: Stage = self.take_stage();
        match stage {
            Stage::Measuring { next_pod, next_container, readings } => {
                let mut readings: PodReadings = readings;
                let _ = readings.record(inspection);
                assert(self@.pods[next_pod as int].containers.len() == self.pods@[next_pod as int].containers@.len());
                let count: usize = self.pods[next_pod].containers.len();
                if !readings.missing && next_container + 1 < count {
                    let name: String = self.pods[next_pod].containers[next_container + 1].clone();
                    assert(self@.pods[next_pod as int].containers[next_container + 1] == name@);
                    self.stage = Stage::Measuring { next_pod, next_container: next_container + 1, readings };
                    return TaskAction::Inspect(name);
                }
                if readings.counts() {
                    let uuid: u128 = self.pods[next_pod].uuid;
                    self.stage = Stage::Measuring { next_pod, next_container: next_container + 1, readings };
                    return TaskAction::Aggregate(uuid);
                }
                let total: usize = self.pods.len();
                assert(next_pod < total);
                proof {
                    lemma_from_pod(old(self)@, self@.stage, next_pod as nat + 1);
                }
                self.measure_from(next_pod + 1)
            },
            _ => TaskAction::Stop,
        }
    }

    fn take_stage(&mut self) -> (r: Stage)
        ensures
            r == old(self).stage,
            final(self).service_name == old(self).service_name,
            final(self).paused == old(self).paused,
            final(self).min_count == old(self).min_count,
            final(self).pods == old(self).pods,
            final(self).measured == old(self).measured,
    {
        let mut stage: Stage = Stage::Over;
        std::mem::swap(&mut stage, &mut self.stage);
        stage
    }

    fn aggregated(&mut self, reading: PodStats) -> (r: TaskAction)
        requires
            old(self)@.well_formed(),
            old(self)@.stage is Measuring,
        ensures
            old(self)@.next(TaskEvent::Aggregated(reading), (final(self)@, r@)),
            final(self)@.well_formed(),
    {
        let pod: usize = match &self.stage {
            Stage::Measuring { next_pod, next_container, readings } => *next_pod,
            _ => 0,
        };
        let total: usize = self.pods.len();
        assert(pod < total);
        let uuid: u128 = self.pods[pod].uuid;
        assert(self@.pods[pod as int].uuid == uuid);
        let _ = self.measured.insert(uuid, reading);
        self.measure_from(pod + 1)
    }

    fn decided(&mut self, decision: Option<ScalingDecision>) -> (r: TaskAction)
        requires
            old(self)@.well_formed(),
            old(self)@.stage is Deciding,
            old(self)@.sorts_for(decision) ==> scaling::comparable(old(self)@.measured),
        ensures
            old(self)@.next(TaskEvent::Decided(decision), (final(self)@, r@)),
            final(self)@.well_formed(),
    {
        let decision: ScalingDecision = match decision {
            Some(d) => d,
            None => {
                return self.wait();
            },
        };
        match scaling::scaling_step(&decision, self.pods.len(), self.min_count, &self.measured) {
            ScalingStep::Grow(n) => {
                if n == 0 {
                    return self.refresh();
                }
                self.stage = Stage::Growing(n);
                TaskAction::StartPod
            },
            ScalingStep::Again => self.begin(),
            ScalingStep::Shrink(list) => {
                if list.len() == 0 {
                    return self.wait();
                }
                let first: u128 = list[0];
                self.stage = Stage::Shrinking(list, 0);
                TaskAction::TakeAway(first)
            },
            ScalingStep::Stay => self.wait(),
        }
    }

    fn taken_away(&mut self, ok: bool) -> (r: TaskAction)
        requires
            old(self)@.well_formed(),
            old(self)@.stage is Shrinking,
        ensures
            old(self)@.next(TaskEvent::TakenAway(ok), (final(self)@, r@)),
            final(self)@.well_formed(),
    {
        let stage: Stage = self.take_stage();
        match stage {
            Stage::Shrinking(list, gone) => {
                let count: usize = list.len();
                assert(gone < count);
                if ok && gone + 1 < count {
                    let next: u128 = list[gone + 1];
                    self.stage = Stage::Shrinking(list, gone + 1);
                    return TaskAction::TakeAway(next);
                }
                if ok || gone > 0 {
                    return self.refresh();
                }
                self.wait()
            },
            _ => TaskAction::Stop,
        }
    }
}

/// A paused task does nothing but wait between rounds, until it is told to go on.
pub proof fn paused_tasks_only_wait(t: TaskFacts, out: (TaskFacts, Todo))
    requires
        t.paused,
        t.stage is Waiting,
        t.next(TaskEvent::Elapsed, out),
    ensures
        out.0 == t,
        out.1 == Todo::Wait(SCALING_PERIOD),
{
}

/// However many pods a round takes away, one after the other, the minimum remains.
pub proof fn rounds_keep_the_minimum(t: TaskFacts, list: Seq<u128>, gone: nat)
    requires
        t.well_formed(),
        t.stage == StageFacts::Shrinking(list, gone),
    ensures
        t.pods.len() - (gone + 1) >= t.min_count,
{
}

/// A round starts no more pods than were decided.
pub proof fn rounds_start_no_more_than_decided(t: TaskFacts, ok: bool, out: (TaskFacts, Todo))
    requires
        t.well_formed(),
        t.stage is Growing,
        t.next(TaskEvent::Started(ok), out),
    ensures
        out.1 == Todo::StartPod ==> out.0.stage == StageFacts::Growing((t.stage->Growing_0 - 1) as nat),
{
}

/// A round in which pods were taken away or started ends with the proxies brought
/// up to date, and then the task waits.
pub proof fn changes_reach_the_proxies(t: TaskFacts, ok: bool, out: (TaskFacts, Todo))
    requires
        t.well_formed(),
        t.stage is Growing || t.stage is Shrinking,
        t.stage is Growing ==> t.next(TaskEvent::Started(ok), out),
        t.stage is Shrinking ==> t.next(TaskEvent::TakenAway(ok), out),
        !(out.0.stage is Growing) && !(out.0.stage is Shrinking),
    ensures
        out.1 == Todo::RefreshProxies || (t.stage is Shrinking && !ok && t.stage->Shrinking_1 == 0 && out
            == t.waiting()),
{
}

/// The pods before a later one are passed over exactly where they have no
/// containers; the round goes on with the first container of the next pod that has
/// any, and is evaluated after the last.
proof fn lemma_next_pod(t: TaskFacts, pod: nat) -> (q: int)
    ensures
        pod <= q,
        q <= t.pods.len() || q == pod,
        forall|i: int| pod <= i < q && i < t.pods.len() ==> (#[trigger] t.pods[i]).containers.len() == 0,
        q < t.pods.len() ==> t.pods[q].containers.len() > 0 && t.from_pod(pod).1 == Todo::Inspect(
            t.pods[q].containers[0],
        ) && t.from_pod(pod).0.stage == (StageFacts::Measuring {
            next_pod: q as nat,
            next_container: 0,
            stats: Seq::empty(),
            missing: false,
        }),
        q >= t.pods.len() ==> t.from_pod(pod).1 == Todo::Evaluate && t.from_pod(pod).0.stage is Deciding,
        t.from_pod(pod).0 == t.at(t.from_pod(pod).0.stage),
    decreases t.pods.len() - pod,
{
    if pod < t.pods.len() && t.pods[pod as int].containers.len() == 0 {
        lemma_next_pod(t, pod + 1)
    } else {
        pod as int
    }
}

/// In a round the containers of a pod are looked at one after the other. A pod that
/// has lost none and of which something was read is put together after its last
/// container; any other is left, and the next pod with containers is turned to. After
/// the last pod the readings are evaluated.
pub proof fn rounds_look_at_every_container(
    t: TaskFacts,
    inspection: Inspection,
    out: (TaskFacts, Todo),
    pod: nat,
    container: nat,
    stats: Seq<Arc<ContainerStats>>,
) -> (q: int)
    requires
        t.well_formed(),
        t.stage == (StageFacts::Measuring { next_pod: pod, next_container: container, stats, missing: false }),
        container < t.pods[pod as int].containers.len(),
        t.next(TaskEvent::Inspected(inspection), out),
    ensures
        ({
            let lost = inspection matches Inspection::Failed(e) && (scaling::holds_text(e@, "404"@)
                || scaling::holds_text(e@, "No such container"@));
            let read = match inspection {
                Inspection::Stats(s) => stats.push(s),
                _ => stats,
            };
            let names = t.pods[pod as int].containers;
            &&& out.0 == t.at(out.0.stage)
            &&& !lost && container + 1 < names.len() ==> out.1 == Todo::Inspect(names[container as int + 1])
                && out.0.stage == (StageFacts::Measuring {
                next_pod: pod,
                next_container: container + 1,
                stats: read,
                missing: false,
            })
            &&& !lost && container + 1 == names.len() && read.len() > 0 ==> out.1 == Todo::Aggregate(
                t.pods[pod as int].uuid,
            ) && out.0.stage == (StageFacts::Measuring {
                next_pod: pod,
                next_container: container + 1,
                stats: read,
                missing: false,
            })
            &&& lost || (container + 1 == names.len() && read.len() == 0) ==> {
                &&& pod < q
                &&& forall|i: int| pod < i < q && i < t.pods.len() ==> (#[trigger] t.pods[i]).containers.len() == 0
                &&& q < t.pods.len() ==> t.pods[q].containers.len() > 0 && out.1 == Todo::Inspect(
                    t.pods[q].containers[0],
                )
                &&& q >= t.pods.len() ==> out.1 == Todo::Evaluate
            }
        }),
{
    if let Inspection::Failed(e) = inspection {
        scaling::missing_containers_are_told_by_their_error(e@);
    }
    lemma_next_pod(t, pod + 1)
}

/// A pod that was put together counts with what was made of its readings, beside the
/// pods before it; then the next pod with containers is turned to.
pub proof fn rounds_measure_pod_by_pod(
    t: TaskFacts,
    reading: PodStats,
    out: (TaskFacts, Todo),
    pod: nat,
    container: nat,
    stats: Seq<Arc<ContainerStats>>,
    missing: bool,
) -> (q: int)
    requires
        t.stage == (StageFacts::Measuring { next_pod: pod, next_container: container, stats, missing }),
        t.next(TaskEvent::Aggregated(reading), out),
    ensures
        out.0.measured == t.measured.insert(t.pods[pod as int].uuid, reading),
        out.0.pods == t.pods,
        out.0.min_count == t.min_count,
        out.0.paused == t.paused,
        out.0.service_name == t.service_name,
        pod < q,
        forall|i: int| pod < i < q && i < t.pods.len() ==> (#[trigger] t.pods[i]).containers.len() == 0,
        q < t.pods.len() ==> t.pods[q].containers.len() > 0 && out.1 == Todo::Inspect(t.pods[q].containers[0]),
        q >= t.pods.len() ==> out.1 == Todo::Evaluate,
{
    let next = TaskFacts { measured: t.measured.insert(t.pods[pod as int].uuid, reading), ..t };
    lemma_next_pod(next, pod + 1)
}

/// A round starts over with the pods that it was given, and with no readings.
pub proof fn rounds_start_with_the_pods_on_record(
    t: TaskFacts,
    min: usize,
    pods: Vec<PodContainers>,
    out: (TaskFacts, Todo),
) -> (q: int)
    requires
        t.next(TaskEvent::Snapshot(min, pods), out),
    ensures
        out.0.measured == Map::<u128, PodStats>::empty(),
        out.0.min_count == min,
        out.0.pods.len() == pods@.len(),
        forall|i: int|
            0 <= i < pods@.len() ==> (#[trigger] out.0.pods[i]).uuid == pods@[i].uuid && out.0.pods[i].containers
                == pods@[i].containers@.map_values(|s: String| s@),
        0 <= q,
        forall|i: int| 0 <= i < q && i < pods@.len() ==> (#[trigger] pods@[i]).containers@.len() == 0,
        q < pods@.len() ==> out.1 == Todo::Inspect(pods@[q].containers@[0]@),
        q >= pods@.len() ==> out.1 == Todo::Evaluate,
{
    let next = TaskFacts { min_count: min as nat, pods: pod_facts(pods@), measured: Map::empty(), ..t };
    let q = lemma_next_pod(next, 0);
    assert forall|i: int| 0 <= i < q && i < pods@.len() implies (#[trigger] pods@[i]).containers@.len() == 0 by {
        assert(next.pods[i].containers.len() == 0);
    }
    q
}

/// A decision is carried out as it was taken: to grow by so many starts as many
/// pods, one after the other, as long as each start succeeds; to shrink takes away
/// the least used pods, one after the other, as far as the minimum allows; else the
/// task waits ten seconds. After a change the proxies are brought up to date.
pub proof fn decisions_are_carried_out(t: TaskFacts, n: u32, out: (TaskFacts, Todo), ok: bool, done: (TaskFacts, Todo))
    ensures
        n > 0 && t.next(TaskEvent::Decided(Some(ScalingDecision::ScaleUp(n))), out) ==> out.1 == Todo::StartPod
            && out.0 == t.at(StageFacts::Growing(n as nat)),
        t.next(TaskEvent::Decided(Some(ScalingDecision::NoChange)), out) || t.next(TaskEvent::Decided(None), out)
            ==> out.1 == Todo::Wait(10_000_000_000) && out.0 == t.at(StageFacts::Waiting),
        n > 0 && t.pods.len() > t.min_count && t.measured.len() > 0 && t.next(
            TaskEvent::Decided(Some(ScalingDecision::ScaleDown(n))),
            out,
        ) ==> {
            &&& out.0.stage matches StageFacts::Shrinking(list, gone) && gone == 0 && list.len() > 0 && out.1
                == Todo::TakeAway(list[0]) && list.len() <= n && t.pods.len() - list.len() >= t.min_count && (
            list.len() == n || t.pods.len() - list.len() == t.min_count || list.len() == t.measured.len())
                && scaling::least_used(list, t.measured, list.len())
            &&& out.0 == t.at(out.0.stage)
        },
        t.stage matches StageFacts::Growing(left) && t.next(TaskEvent::Started(ok), done) ==> {
            &&& ok && t.stage->Growing_0 > 1 ==> done.1 == Todo::StartPod && done.0 == t.at(
                StageFacts::Growing((t.stage->Growing_0 - 1) as nat),
            )
            &&& !ok || t.stage->Growing_0 <= 1 ==> done.1 == Todo::RefreshProxies && done.0 == t.at(
                StageFacts::Refreshing,
            )
        },
        t.stage matches StageFacts::Shrinking(list, gone) && t.next(TaskEvent::TakenAway(ok), done) ==> {
            let (list, gone) = (t.stage->Shrinking_0, t.stage->Shrinking_1);
            &&& ok && gone + 1 < list.len() ==> done.1 == Todo::TakeAway(list[gone as int + 1]) && done.0 == t.at(
                StageFacts::Shrinking(list, gone + 1),
            )
            &&& (ok && gone + 1 >= list.len()) || (!ok && gone > 0) ==> done.1 == Todo::RefreshProxies && done.0
                == t.at(StageFacts::Refreshing)
            &&& !ok && gone == 0 ==> done.1 == Todo::Wait(10_000_000_000) && done.0 == t.at(StageFacts::Waiting)
        },
        t.next(TaskEvent::Refreshed, done) ==> done.1 == Todo::Wait(10_000_000_000) && done.0 == t.at(
            StageFacts::Waiting,
        ),
{
    if n > 0 && t.pods.len() > t.min_count && t.measured.len() > 0 && t.next(
        TaskEvent::Decided(Some(ScalingDecision::ScaleDown(n))),
        out,
    ) {
        let count = scaling::shrink_count(t.pods.len(), t.min_count, n as nat);
        let list = choose|list: Seq<u128>|
            {
                &&& #[trigger] scaling::least_used(list, t.measured, count)
                &&& list.len() > 0
                &&& out == (t.at(StageFacts::Shrinking(list, 0)), Todo::TakeAway(list[0]))
            };
        scaling::pods_go_down_to_the_minimum(t.pods.len(), t.min_count, n as nat);
        assert(scaling::least_used(list, t.measured, list.len()));
    }
}

/// Between rounds the task waits for its time or for word about its service. Unless
/// it is paused then, the next round begins; word about another service does not
/// change whether it is paused. A service that is gone ends the task.
pub proof fn rounds_begin_unless_paused(t: TaskFacts, name: String, message: ScaleMessage, out: (TaskFacts, Todo))
    ensures
        t.next(TaskEvent::Elapsed, out) ==> out.0.paused == t.paused,
        t.next(TaskEvent::Message(name, message), out) && name@ != t.service_name ==> out.0.paused == t.paused,
        t.next(TaskEvent::Message(name, message), out) && name@ == t.service_name ==> out.0.paused == (message
            == ScaleMessage::ConfigUpdate || message == ScaleMessage::RollingUpdate),
        t.next(TaskEvent::Elapsed, out) || t.next(TaskEvent::Message(name, message), out) ==> {
            &&& out.0.paused ==> out.1 == Todo::Wait(10_000_000_000) && out.0.stage is Waiting
            &&& !out.0.paused ==> out.1 == Todo::LookUp && out.0.stage is LookingUp
            &&& out.0.pods == t.pods && out.0.measured == t.measured && out.0.min_count == t.min_count
                && out.0.service_name == t.service_name
        },
        t.next(TaskEvent::Gone, out) ==> out.1 == Todo::Stop && out.0.stage is Over,
{
}

} // verus!
