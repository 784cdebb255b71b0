//! A rollout, step by step: when pods with the new images start, and when the
//! pods with the old ones go.
//!
//! A `RolloutTask` says what to do, and is told what came of it. At no time are
//! there more pods than the service had and may surge by, nor fewer than it had
//! less those that may be unavailable. Times are in nanoseconds.

use crate::config::RollingUpdateConfig;
use crate::container::lifecycle;
use crate::container::naming;
use crate::container::rolling_update;
use crate::container::rolling_update::NewPod;
use crate::container::rolling_update::ReadyStep;
use crate::container::rolling_update::RetiredPod;
use crate::container::runtimes::start::StartedContainer;
use crate::container::InstanceMetadata;
use crate::container::InstanceStore;
use crate::proxy;
use crate::stores;
use rustc_hash::FxHashMap;
use vstd::prelude::*;
use vstd::string::*;

verus! {

/// What came of the last action.
#[derive(Clone, Copy, PartialEq, Eq, Structural, Debug)]
pub enum RolloutEvent {
    /// A pod was started and is on record under this UUID.
    PodStarted(u128),
    /// A pod could not be started.
    StartFailed,
    /// Whether all new pods answered.
    Checked(bool),
    /// The new pods have been awaited for so long.
    Waited(u128),
    /// The pod that was to go is gone.
    Retired,
}

/// What to do next.
#[derive(Debug)]
pub enum RolloutAction {
    /// Start so many pods, all at once, and wait for the first.
    StartPods(usize),
    /// Wait for the next of the pods that were started.
    AwaitStart,
    /// See whether the new pods answer.
    CheckReady,
    /// Go on waiting for the new pods, for so long.
    Wait(u128),
    /// Take this pod from behind its proxies, let it finish its requests, take it
    /// off the record, and then take it down.
    Retire(RetiredPod),
    /// The rollout is done.
    Finish,
    /// The rollout cannot go on.
    Fail,
}

/// How far a rollout has come.
#[derive(Clone, Copy, PartialEq, Eq, Structural, Debug)]
pub enum RolloutStage {
    /// So many of the pods that were started are not on record yet.
    Starting(usize),
    /// The new pods are awaited.
    Awaiting,
    /// The pod under this UUID is on its way out.
    Retiring(u128),
    Finished,
    Failed,
}

/// What a `RolloutTask` says.
pub struct RolloutFacts {
    pub service_name: Seq<char>,
    /// The new images, by container name.
    pub images: Map<Seq<char>, Seq<char>>,
    /// How many pods the service had when the rollout began.
    pub total: nat,
    /// How many fewer there may be.
    pub max_unavailable: nat,
    /// How many more there may be.
    pub max_surge: nat,
    /// How long new pods are awaited.
    pub timeout: u128,
    /// The pods with old images that are to go.
    pub old_pods: Seq<RetiredPod>,
    /// The pods with old images that went or are on their way out.
    pub gone: Seq<u128>,
    /// The pods with new images.
    pub new_pods: Seq<u128>,
    pub stage: RolloutStage,
}

/// The UUIDs of some pods.
pub open spec fn uuids(pods: Seq<RetiredPod>) -> Seq<u128> {
    pods.map_values(|p: RetiredPod| p.uuid)
}

impl RolloutFacts {
    /// The pod that is on its way out, if there is one.
    pub open spec fn retiring(self) -> Seq<u128> {
        match self.stage {
            RolloutStage::Retiring(u) => seq![u],
            _ => Seq::empty(),
        }
    }

    /// How many pods are being started.
    pub open spec fn starting(self) -> nat {
        match self.stage {
            RolloutStage::Starting(n) => n as nat,
            _ => 0,
        }
    }

    /// All pods: the one on its way out, the other old ones, the new ones.
    pub open spec fn pods(self) -> Seq<u128> {
        self.retiring() + uuids(self.old_pods) + self.new_pods
    }

    /// The pods that the rollout began with.
    pub open spec fn initial_pods(self) -> Set<u128> {
        uuids(self.old_pods).to_set() + self.gone.to_set()
    }

    /// The pod is one that the rollout began with, or one of its new ones.
    pub open spec fn knows(self, uuid: u128) -> bool {
        self.initial_pods().contains(uuid) || self.new_pods.contains(uuid)
    }

    /// There are neither too many pods nor too few, now and once those that are
    /// being started are there and the one on its way out is gone.
    pub open spec fn well_formed(self) -> bool {
        let live = self.pods().len();
        &&& self.pods().no_duplicates()
        &&& forall|u: u128| #[trigger] self.new_pods.contains(u) ==> !self.initial_pods().contains(u)
        &&& forall|u: u128| #[trigger] self.retiring().contains(u) ==> self.gone.contains(u)
        &&& live + self.starting() <= self.total + self.max_surge
        &&& live - self.retiring().len() + self.max_unavailable >= self.total
        &&& self.new_pods.len() + self.starting() <= self.total
        &&& self.stage is Starting ==> self.starting() > 0
        &&& self.stage is Finished ==> self.old_pods.len() == 0 && self.new_pods.len() == self.total
    }

    pub open spec fn at(self, stage: RolloutStage) -> RolloutFacts {
        RolloutFacts { stage, ..self }
    }

    /// Every pod is a new one, and there are as many as there were.
    pub open spec fn done(self) -> bool {
        self.old_pods.len() == 0 && self.new_pods.len() == self.total
    }

    /// How many pods there are between two steps.
    pub open spec fn settled(self) -> nat {
        self.old_pods.len() + self.new_pods.len()
    }

    /// How many pods can start: those that are missing, as far as there is room.
    pub open spec fn batch(self) -> int {
        let missing = self.total - self.new_pods.len();
        let room = self.total + self.max_surge - self.settled();
        if missing < room {
            missing
        } else {
            room
        }
    }

    /// An old pod can go without leaving too few.
    pub open spec fn can_retire(self) -> bool {
        self.old_pods.len() > 0 && self.settled() - 1 + self.max_unavailable >= self.total
    }

    /// How many pods have yet to start or to go.
    pub open spec fn left(self) -> int {
        self.total - self.new_pods.len() + self.old_pods.len() + self.retiring().len()
    }

    /// The first old pod goes.
    pub open spec fn retire(self) -> (RolloutFacts, RolloutAction) {
        let p = self.old_pods[0];
        (
            RolloutFacts {
                old_pods: self.old_pods.skip(1),
                gone: self.gone.push(p.uuid),
                stage: RolloutStage::Retiring(p.uuid),
                ..self
            },
            RolloutAction::Retire(p),
        )
    }

    /// Pods start.
    pub open spec fn start(self) -> (RolloutFacts, RolloutAction) {
        let n = self.batch() as usize;
        (self.at(RolloutStage::Starting(n)), RolloutAction::StartPods(n))
    }

    /// At the beginning: pods start if there is room for any; otherwise an old
    /// one makes room.
    pub open spec fn beginning(self) -> (RolloutFacts, RolloutAction) {
        if self.done() {
            (self.at(RolloutStage::Finished), RolloutAction::Finish)
        } else if self.batch() > 0 {
            self.start()
        } else if self.can_retire() {
            self.retire()
        } else {
            (self.at(RolloutStage::Failed), RolloutAction::Fail)
        }
    }

    /// Once the new pods have been awaited, and after each pod that went: old
    /// pods go as long as enough are left, then more new ones start.
    pub open spec fn proceeding(self) -> (RolloutFacts, RolloutAction) {
        if self.can_retire() {
            self.retire()
        } else {
            self.beginning()
        }
    }

    /// Where new pods are awaited, given what `rolling_update::await_new_pods`
    /// says.
    pub open spec fn awaiting(self, step: ReadyStep) -> (RolloutFacts, RolloutAction) {
        match step {
            ReadyStep::Proceed => self.proceeding(),
            ReadyStep::Check => (self.at(RolloutStage::Awaiting), RolloutAction::CheckReady),
            ReadyStep::CheckAfter(n) => (self.at(RolloutStage::Awaiting), RolloutAction::Wait(n)),
        }
    }

    /// The event is one that can follow.
    pub open spec fn expects(self, event: RolloutEvent) -> bool {
        match event {
            RolloutEvent::PodStarted(_) => self.stage is Starting,
            RolloutEvent::StartFailed => self.stage is Starting,
            RolloutEvent::Checked(_) => self.stage is Awaiting,
            RolloutEvent::Waited(_) => self.stage is Awaiting,
            RolloutEvent::Retired => self.stage is Retiring,
        }
    }

    /// How the rollout goes on after the event. It fails with a start that fails,
    /// or that gives a pod which is known already.
    pub open spec fn next(self, event: RolloutEvent) -> (RolloutFacts, RolloutAction) {
        match event {
            RolloutEvent::PodStarted(uuid) => {
                if self.knows(uuid) {
                    (self.at(RolloutStage::Failed), RolloutAction::Fail)
                } else {
                    let more = joined(self, uuid);
                    if self.starting() > 1 {
                        (more, RolloutAction::AwaitStart)
                    } else {
                        more.awaiting(rolling_update::ready_step(0, self.timeout, None))
                    }
                }
            },
            RolloutEvent::StartFailed => (self.at(RolloutStage::Failed), RolloutAction::Fail),
            RolloutEvent::Checked(ready) => self.awaiting(
                rolling_update::ready_step(0, self.timeout, Some(ready)),
            ),
            RolloutEvent::Waited(waited) => self.awaiting(rolling_update::ready_step(waited, self.timeout, None)),
            RolloutEvent::Retired => self.at(RolloutStage::Awaiting).proceeding(),
        }
    }
}

/// A rollout.
#[derive(Debug)]
pub struct RolloutTask {
    service_name: String,
    images: FxHashMap<String, String>,
    total: usize,
    config: RollingUpdateConfig,
    old_pods: Vec<RetiredPod>,
    gone: Vec<u128>,
    new_pods: Vec<u128>,
    stage: RolloutStage,
}

impl View for RolloutTask {
    type V = RolloutFacts;

    closed spec fn view(&self) -> RolloutFacts {
        RolloutFacts {
            service_name: self.service_name@,
            images: rolling_update::images(self.images),
            total: self.total as nat,
            max_unavailable: self.config.max_unavailable as nat,
            max_surge: self.config.max_surge as nat,
            timeout: self.config.timeout,
            old_pods: self.old_pods@,
            gone: self.gone@,
            new_pods: self.new_pods@,
            stage: self.stage,
        }
    }
}

/// Between two steps, going on keeps the bounds and the pods.
proof fn lemma_proceeding(t: RolloutFacts)
    requires
        t.well_formed(),
        t.stage is Awaiting,
        t.total <= usize::MAX,
    ensures
        t.beginning().0.well_formed(),
        t.beginning().0.pods() == t.pods(),
        t.proceeding().0.well_formed(),
        t.proceeding().0.pods() == t.pods(),
        t.beginning().0.initial_pods() == t.initial_pods(),
        t.proceeding().0.initial_pods() == t.initial_pods(),
{
    assert(uuids(t.old_pods).len() == t.old_pods.len());
    assert forall|stage: RolloutStage| !(stage is Retiring) implies #[trigger] t.at(stage).pods() == t.pods() by {
        assert(t.at(stage).retiring() =~= t.retiring());
    }
    if t.can_retire() {
        let after = t.retire().0;
        let u = t.old_pods[0].uuid;
        let (all, rest) = (uuids(t.old_pods), uuids(t.old_pods.skip(1)));
        assert(all =~= seq![u] + rest);
        assert(after.pods() =~= t.pods());
        t.gone.lemma_push_to_set_commute(u);
        assert forall|w: u128| all.contains(w) == (rest.contains(w) || w == u) by {
            assert(all[0] == u);
            if all.contains(w) && w != u {
                let i = choose|i: int| 0 <= i < all.len() && all[i] == w;
                assert(rest[i - 1] == w);
            }
            if rest.contains(w) {
                let i = choose|i: int| 0 <= i < rest.len() && rest[i] == w;
                assert(all[i + 1] == w);
            }
        }
        assert(after.initial_pods() =~= t.initial_pods());
        assert(after.gone[t.gone.len() as int] == u);
    }
}

/// A pod that is not known is not there.
proof fn lemma_unknown(t: RolloutFacts, u: u128)
    requires
        t.well_formed(),
        !t.knows(u),
    ensures
        !t.pods().contains(u),
{
    let (a, b, c) = (t.retiring(), uuids(t.old_pods), t.new_pods);
    if t.pods().contains(u) {
        let i = choose|i: int| 0 <= i < t.pods().len() && t.pods()[i] == u;
        if i < a.len() {
            assert(a[i] == u);
            assert(a.contains(u));
        } else if i < a.len() + b.len() {
            assert(b[i - a.len()] == u);
        } else {
            assert(c[i - a.len() - b.len()] == u);
        }
    }
}

/// The rollout with one more pod.
pub open spec fn joined(t: RolloutFacts, u: u128) -> RolloutFacts {
    let stage = if t.starting() > 1 {
        RolloutStage::Starting((t.starting() - 1) as usize)
    } else {
        RolloutStage::Awaiting
    };
    RolloutFacts { new_pods: t.new_pods.push(u), stage, ..t }
}

/// One more pod keeps the bounds.
proof fn lemma_joined(t: RolloutFacts, u: u128)
    requires
        t.well_formed(),
        t.stage is Starting,
        !t.knows(u),
    ensures
        joined(t, u).well_formed(),
        joined(t, u).pods() == t.pods().push(u),
        joined(t, u).initial_pods() == t.initial_pods(),
{
    lemma_unknown(t, u);
    let more = joined(t, u);
    assert(more.retiring() =~= t.retiring());
    assert(more.pods() =~= t.pods().push(u));
    assert forall|w: u128| #[trigger] more.new_pods.contains(w) implies !more.initial_pods().contains(w) by {
        let i = choose|i: int| 0 <= i < more.new_pods.len() && more.new_pods[i] == w;
        if i < t.new_pods.len() {
            assert(t.new_pods[i] == w);
            assert(t.new_pods.contains(w));
        }
    }
}

/// Every step keeps the bounds. A start adds its pod, a pod that is gone leaves,
/// and nothing else changes the pods.
proof fn lemma_next(t: RolloutFacts, event: RolloutEvent)
    requires
        t.well_formed(),
        t.expects(event),
        t.total <= usize::MAX,
    ensures
        t.next(event).0.well_formed(),
        t.next(event).0.pods() == (match event {
            RolloutEvent::PodStarted(u) => if t.knows(u) {
                t.pods()
            } else {
                t.pods().push(u)
            },
            RolloutEvent::Retired => t.pods().skip(1),
            _ => t.pods(),
        }),
        t.next(event).0.initial_pods() == t.initial_pods(),
{
    assert(uuids(t.old_pods).len() == t.old_pods.len());
    match event {
        RolloutEvent::PodStarted(u) => {
            if t.knows(u) {
                assert(t.at(RolloutStage::Failed).retiring() =~= t.retiring());
            } else {
                lemma_joined(t, u);
                if t.starting() == 1 {
                    lemma_proceeding(joined(t, u));
                }
            }
        },
        RolloutEvent::StartFailed => {
            assert(t.at(RolloutStage::Failed).retiring() =~= t.retiring());
        },
        RolloutEvent::Checked(_) => {
            assert(t.at(RolloutStage::Awaiting) == t);
            lemma_proceeding(t);
        },
        RolloutEvent::Waited(_) => {
            assert(t.at(RolloutStage::Awaiting) == t);
            lemma_proceeding(t);
        },
        RolloutEvent::Retired => {
            let after = t.at(RolloutStage::Awaiting);
            assert(after.pods() =~= t.pods().skip(1));
            lemma_proceeding(after);
        },
    }
}

/// Whether a list holds a UUID.
fn is_among(list: &Vec<u128>, uuid: u128) -> (r: bool)
    ensures
        r == list@.contains(uuid),
{
    let mut i: usize = 0;
    while i < list.len()
        invariant
            i <= list@.len(),
            forall|j: int| 0 <= j < i ==> #[trigger] list@[j] != uuid,
        decreases list@.len() - i,
    {
        if list[i] == uuid {
            return true;
        }
        i = i + 1;
    }
    false
}

impl RolloutTask {
    /// A rollout over the given pods, and its first action.
    pub fn new(
        service_name: String,
        images: FxHashMap<String, String>,
        config: RollingUpdateConfig,
        old_pods: Vec<RetiredPod>,
    ) -> (r: (RolloutTask, RolloutAction))
        requires
            uuids(old_pods@).no_duplicates(),
        ensures
            (r.0@, r.1) == first_facts(
                service_name@,
                rolling_update::images(images),
                config,
                old_pods@,
            ).beginning(),
            r.0@.well_formed(),
    {
        let total: usize = old_pods.len();
        let mut task: RolloutTask = RolloutTask {
            service_name,
            images,
            total,
            config,
            old_pods,
            gone: Vec::new(),
            new_pods: Vec::new(),
            stage: RolloutStage::Awaiting,
        };
        proof {
            let first = first_facts(service_name@, rolling_update::images(images), config, old_pods@);
            assert(task@.new_pods =~= first.new_pods);
            assert(task@.gone =~= first.gone);
            assert(task@ == first);
            assert(first.pods() =~= uuids(old_pods@));
            lemma_proceeding(first);
        }
        let action: RolloutAction = task.begin();
        (task, action)
    }

    /// Takes in the containers of a pod that was started: the pod goes on record
    /// with the new images, under the UUID in the name of its first container. A
    /// pod without containers, or whose UUID cannot be read or is known already,
    /// counts as one that could not be started. The result holds what to put
    /// behind the proxies and wait for, and what to do next.
    pub fn take_in(&mut self, store: &mut InstanceStore, now: u128, started: Vec<StartedContainer>) -> (r: (
        Option<NewPod>,
        RolloutAction,
    ))
        requires
            old(self)@.well_formed(),
            old(self)@.stage is Starting,
        ensures
            final(self)@.well_formed(),
            ({
                let t = old(self)@;
                match lifecycle::named_uuid(started@) {
                    Some(u) if !t.knows(u) => {
                        &&& (final(self)@, r.1) == t.next(RolloutEvent::PodStarted(u))
                        &&& r.0 matches Some(p) && rolling_update::is_new_pod(p, t.service_name, u, started@)
                        &&& rolling_update::new_pod_recorded(
                            *old(store),
                            *final(store),
                            t.service_name,
                            u,
                            now,
                            t.images,
                            started@,
                        )
                    },
                    _ => {
                        &&& (final(self)@, r.1) == t.next(RolloutEvent::StartFailed)
                        &&& r.0 is None
                        &&& *final(store) == *old(store)
                    },
                }
            }),
            on_record(old(self)@, *old(store)) ==> on_record(final(self)@, *final(store)),
    {
        let ghost t = self@;
        let ghost before = *store;
        let uuid: Option<u128> = lifecycle::uuid_in_names(&started);
        if let Some(u) = uuid {
            if !self.is_known(u) {
                let images: FxHashMap<String, String> = stores::copy_texts(&self.images);
                if let Ok(Some(pod)) = rolling_update::record_new_pod(
                    store,
                    self.service_name.as_str(),
                    now,
                    images,
                    started,
                ) {
                    let action: RolloutAction = self.on_event(RolloutEvent::PodStarted(u));
                    proof {
                        if on_record(t, before) {
                            let m = choose|m: InstanceMetadata|
                                {
                                    &&& #[trigger] m@ == lifecycle::instance_facts(
                                        u,
                                        now,
                                        naming::pod_network(t.service_name, u),
                                        t.images,
                                        lifecycle::started_facts(started@),
                                    )
                                    &&& lifecycle::only_pods_changed(
                                        stores::entries(before),
                                        stores::entries(*store),
                                        t.service_name,
                                        proxy::pods_of(stores::entries(before), t.service_name).insert(u, m),
                                    )
                                };
                            let first = RolloutWorld { task: t, pods: service_pods(t, before) };
                            let second = RolloutWorld { task: self@, pods: service_pods(t, *store) };
                            assert(second.pods == first.pods.insert(u, m));
                            assert(second.pods[u] == m);
                            assert(service_pods(t, *store).contains_key(u));
                            assert(stores::entries(*store).contains_key(t.service_name));
                            lemma_follows(first, RolloutEvent::PodStarted(u), second);
                        }
                    }
                    return (Some(pod), action);
                }
            }
        }
        proof {
            lemma_next(t, RolloutEvent::StartFailed);
        }
        (None, self.on_event(RolloutEvent::StartFailed))
    }

    /// What to do next, given what came of the last action.
    pub fn on_event(&mut self, event: RolloutEvent) -> (a: RolloutAction)
        requires
            old(self)@.well_formed(),
            old(self)@.expects(event),
        ensures
            (final(self)@, a) == old(self)@.next(event),
            final(self)@.well_formed(),
    {
        proof {
            lemma_next(self@, event);
        }
        match event {
            RolloutEvent::PodStarted(uuid) => self.pod_started(uuid),
            RolloutEvent::StartFailed => {
                self.stage = RolloutStage::Failed;
                RolloutAction::Fail
            },
            RolloutEvent::Checked(ready) => {
                let step: ReadyStep = rolling_update::await_new_pods(0, self.config.timeout, Some(ready));
                self.wait_or_proceed(step)
            },
            RolloutEvent::Waited(waited) => {
                let step: ReadyStep = rolling_update::await_new_pods(waited, self.config.timeout, None);
                self.wait_or_proceed(step)
            },
            RolloutEvent::Retired => {
                self.stage = RolloutStage::Awaiting;
                assert(self@.pods() =~= old(self)@.pods().skip(1));
                self.proceed()
            },
        }
    }

    fn pod_started(&mut self, uuid: u128) -> (a: RolloutAction)
        requires
            old(self)@.well_formed(),
            old(self)@.stage is Starting,
        ensures
            (final(self)@, a) == old(self)@.next(RolloutEvent::PodStarted(uuid)),
    {
        let left: usize = match self.stage {
            RolloutStage::Starting(n) => n,
            _ => 0,
        };
        if self.is_known(uuid) {
            self.stage = RolloutStage::Failed;
            return RolloutAction::Fail;
        }
        self.new_pods.push(uuid);
        if left > 1 {
            self.stage = RolloutStage::Starting(left - 1);
            return RolloutAction::AwaitStart;
        }
        self.stage = RolloutStage::Awaiting;
        proof {
            lemma_joined(old(self)@, uuid);
            assert(self@ == joined(old(self)@, uuid));
        }
        let step: ReadyStep = rolling_update::await_new_pods(0, self.config.timeout, None);
        self.wait_or_proceed(step)
    }

    /// Whether a pod is one that the rollout began with, or one of its new ones.
    fn is_known(&self, uuid: u128) -> (r: bool)
        ensures
            r == self@.knows(uuid),
    {
        let mut i: usize = 0;
        while i < self.old_pods.len()
            invariant
                i <= self.old_pods@.len(),
                forall|j: int| 0 <= j < i ==> #[trigger] uuids(self.old_pods@)[j] != uuid,
            decreases self.old_pods@.len() - i,
        {
            assert(uuids(self.old_pods@)[i as int] == self.old_pods@[i as int].uuid);
            if self.old_pods[i].uuid == uuid {
                assert(uuids(self.old_pods@).contains(uuid));
                return true;
            }
            i = i + 1;
        }
        is_among(&self.gone, uuid) || is_among(&self.new_pods, uuid)
    }

    fn wait_or_proceed(&mut self, step: ReadyStep) -> (a: RolloutAction)
        requires
            old(self)@.well_formed(),
            old(self)@.stage is Awaiting,
        ensures
            (final(self)@, a) == old(self)@.awaiting(step),
    {
        match step {
            ReadyStep::Proceed => self.proceed(),
            ReadyStep::Check => RolloutAction::CheckReady,
            ReadyStep::CheckAfter(n) => RolloutAction::Wait(n),
        }
    }

    fn proceed(&mut self) -> (a: RolloutAction)
        requires
            old(self)@.well_formed(),
            old(self)@.stage is Awaiting,
        ensures
            (final(self)@, a) == old(self)@.proceeding(),
    {
        if self.may_retire() {
            return self.retire();
        }
        self.begin()
    }

    fn begin(&mut self) -> (a: RolloutAction)
        requires
            old(self)@.well_formed(),
            old(self)@.stage is Awaiting,
        ensures
            (final(self)@, a) == old(self)@.beginning(),
    {
        if self.old_pods.len() == 0 && self.new_pods.len() == self.total {
            self.stage = RolloutStage::Finished;
            return RolloutAction::Finish;
        }
        let live: u128 = self.old_pods.len() as u128 + self.new_pods.len() as u128;
        assert(self@.pods().len() == live);
        let missing: usize = self.total - self.new_pods.len();
        let room: u128 = self.total as u128 + self.config.max_surge as u128 - live;
        let batch: usize = if (missing as u128) < room {
            missing
        } else {
            room as usize
        };
        if batch > 0 {
            self.stage = RolloutStage::Starting(batch);
            return RolloutAction::StartPods(batch);
        }
        if self.may_retire() {
            return self.retire();
        }
        self.stage = RolloutStage::Failed;
        RolloutAction::Fail
    }

    fn may_retire(&self) -> (r: bool)
        ensures
            r == self@.can_retire(),
    {
        let live: u128 = self.old_pods.len() as u128 + self.new_pods.len() as u128;
        self.old_pods.len() > 0 && live - 1 + self.config.max_unavailable as u128 >= self.total as u128
    }

    fn retire(&mut self) -> (a: RolloutAction)
        requires
            old(self)@.can_retire(),
        ensures
            (final(self)@, a) == old(self)@.retire(),
    {
        let pod: RetiredPod = self.old_pods.remove(0);
        self.gone.push(pod.uuid);
        self.stage = RolloutStage::Retiring(pod.uuid);
        assert(self@.old_pods =~= old(self)@.old_pods.skip(1));
        RolloutAction::Retire(pod)
    }
}

/// A rollout over the given pods, before its first action.
pub open spec fn first_facts(
    service: Seq<char>,
    images: Map<Seq<char>, Seq<char>>,
    config: RollingUpdateConfig,
    old_pods: Seq<RetiredPod>,
) -> RolloutFacts {
    RolloutFacts {
        service_name: service,
        images,
        total: old_pods.len(),
        max_unavailable: config.max_unavailable as nat,
        max_surge: config.max_surge as nat,
        timeout: config.timeout,
        old_pods,
        gone: Seq::empty(),
        new_pods: Seq::empty(),
        stage: RolloutStage::Awaiting,
    }
}

/// The pods on record are those of the rollout, and its new ones have the new
/// images.
pub open spec fn in_step(t: RolloutFacts, pods: Map<u128, InstanceMetadata>) -> bool {
    &&& pods.dom() == t.pods().to_set()
    &&& forall|u: u128| #[trigger] t.new_pods.contains(u) ==> pods[u]@.image_hash == t.images
}

/// The pods that are on record for the service of a rollout.
pub open spec fn service_pods(t: RolloutFacts, store: InstanceStore) -> Map<u128, InstanceMetadata> {
    proxy::pods_of(stores::entries(store), t.service_name)
}

/// The service is on record, and the rollout is in step with it.
pub open spec fn on_record(t: RolloutFacts, store: InstanceStore) -> bool {
    stores::entries(store).contains_key(t.service_name) && in_step(t, service_pods(t, store))
}

/// A rollout starts in step with the pods that it is over.
pub(crate) proof fn lemma_first(
    service: Seq<char>,
    images: Map<Seq<char>, Seq<char>>,
    config: RollingUpdateConfig,
    old_pods: Seq<RetiredPod>,
    pods: Map<u128, InstanceMetadata>,
)
    requires
        uuids(old_pods).no_duplicates(),
        uuids(old_pods).to_set() == pods.dom(),
        old_pods.len() <= usize::MAX,
    ensures
        in_step(first_facts(service, images, config, old_pods).beginning().0, pods),
        first_facts(service, images, config, old_pods).beginning().0.initial_pods() == pods.dom(),
{
    let first = first_facts(service, images, config, old_pods);
    assert(first.pods() =~= uuids(old_pods));
    lemma_proceeding(first);
    assert(first.initial_pods() =~= pods.dom());
}

/// At no time does a rollout have more pods on record than the service had and
/// may surge by, nor fewer than it had less those that may be unavailable. Once
/// it is finished, there are as many as there were, none of them an old one, and
/// each with the new images.
pub proof fn rollouts_stay_within_their_bounds(t: RolloutFacts, pods: Map<u128, InstanceMetadata>)
    requires
        t.well_formed(),
        in_step(t, pods),
    ensures
        pods.len() <= t.total + t.max_surge,
        pods.len() + t.max_unavailable >= t.total,
        t.stage is Finished ==> pods.len() == t.total && forall|u: u128| #[trigger]
            pods.contains_key(u) ==> !t.initial_pods().contains(u) && pods[u]@.image_hash == t.images,
{
    t.pods().unique_seq_to_set();
    assert(pods.len() == t.pods().len());
    if t.stage is Finished {
        assert(uuids(t.old_pods) =~= Seq::empty());
        assert(t.pods() =~= t.new_pods);
        assert forall|u: u128| #[trigger] pods.contains_key(u) implies !t.initial_pods().contains(u)
            && pods[u]@.image_hash == t.images by {
            assert(t.pods().to_set().contains(u));
            assert(t.new_pods.contains(u));
        }
    }
}

/// A rollout and the pods on record.
pub struct RolloutWorld {
    pub task: RolloutFacts,
    pub pods: Map<u128, InstanceMetadata>,
}

/// `after` follows on `before` with the event: a pod that was started came on
/// record with the new images, a pod that is gone went off it.
pub open spec fn follows(before: RolloutWorld, event: RolloutEvent, after: RolloutWorld) -> bool {
    &&& before.task.expects(event)
    &&& after.task == before.task.next(event).0
    &&& match event {
        RolloutEvent::PodStarted(u) if !before.task.knows(u) => {
            &&& after.pods == before.pods.insert(u, after.pods[u])
            &&& after.pods[u]@.image_hash == before.task.images
        },
        RolloutEvent::Retired => after.pods == before.pods.remove(before.task.retiring()[0]),
        _ => after.pods == before.pods,
    }
}

/// Each step keeps the rollout in step with the record.
proof fn lemma_follows(before: RolloutWorld, event: RolloutEvent, after: RolloutWorld)
    requires
        before.task.well_formed(),
        before.task.total <= usize::MAX,
        in_step(before.task, before.pods),
        follows(before, event, after),
    ensures
        after.task.well_formed(),
        in_step(after.task, after.pods),
        after.task.total == before.task.total,
        after.task.max_surge == before.task.max_surge,
        after.task.max_unavailable == before.task.max_unavailable,
        after.task.images == before.task.images,
        after.task.initial_pods() == before.task.initial_pods(),
        after.task.service_name == before.task.service_name,
{
    let (t, n) = (before.task, after.task);
    lemma_next(t, event);
    match event {
        RolloutEvent::PodStarted(u) => {
            if !t.knows(u) {
                lemma_unknown(t, u);
                t.pods().lemma_push_to_set_commute(u);
                t.new_pods.lemma_push_to_set_commute(u);
                assert(n.new_pods == t.new_pods.push(u));
                assert(after.pods.dom() =~= n.pods().to_set());
                assert forall|w: u128| #[trigger] n.new_pods.contains(w) implies after.pods[w]@.image_hash
                    == n.images by {
                    if w != u {
                        assert(t.new_pods.to_set().insert(u).contains(w));
                        assert(t.new_pods.contains(w));
                    }
                }
            }
        },
        RolloutEvent::Retired => {
            let u = t.retiring()[0];
            let all = t.pods();
            assert(all[0] == u);
            assert(all.skip(1).to_set() =~= all.to_set().remove(u)) by {
                assert forall|w: u128| all.skip(1).contains(w) == (all.contains(w) && w != u) by {
                    if all.skip(1).contains(w) {
                        let i = choose|i: int| 0 <= i < all.skip(1).len() && all.skip(1)[i] == w;
                        assert(all[i + 1] == w);
                    }
                    if all.contains(w) && w != u {
                        let i = choose|i: int| 0 <= i < all.len() && all[i] == w;
                        assert(all.skip(1)[i - 1] == w);
                    }
                }
            }
            assert(after.pods.dom() =~= n.pods().to_set());
            assert(n.new_pods == t.new_pods);
            assert forall|w: u128| #[trigger] n.new_pods.contains(w) implies after.pods[w]@.image_hash == n.images by {
                let i = choose|i: int| 0 <= i < t.new_pods.len() && t.new_pods[i] == w;
                let k = 1 + t.old_pods.len() as int;
                assert(uuids(t.old_pods).len() == t.old_pods.len());
                assert(all[k + i] == w);
                assert(w != u);
            }
        },
        _ => {
            assert(n.new_pods == t.new_pods);
        },
    }
}

/// Whatever happens in the course of a rollout, after every step there are
/// neither too many pods on record nor too few. Where it comes to its end, there
/// are as many pods as there were at the beginning, none of them an old one, and
/// each with the new images.
pub proof fn rollouts_replace_every_pod(worlds: Seq<RolloutWorld>, events: Seq<RolloutEvent>, i: int)
    requires
        worlds.len() == events.len() + 1,
        worlds[0].task.well_formed(),
        worlds[0].task.total <= usize::MAX,
        in_step(worlds[0].task, worlds[0].pods),
        forall|j: int| 0 <= j < events.len() ==> follows(#[trigger] worlds[j], events[j], worlds[j + 1]),
        0 <= i < worlds.len(),
    ensures
        ({
            let (first, w) = (worlds[0].task, worlds[i]);
            &&& w.task.well_formed()
            &&& in_step(w.task, w.pods)
            &&& w.task.total == first.total
            &&& w.task.max_surge == first.max_surge
            &&& w.task.max_unavailable == first.max_unavailable
            &&& w.task.images == first.images
            &&& w.pods.len() <= first.total + first.max_surge
            &&& w.pods.len() + first.max_unavailable >= first.total
            &&& w.task.initial_pods() == first.initial_pods()
            &&& w.task.stage is Finished ==> w.pods.len() == first.total && forall|u: u128| #[trigger]
                w.pods.contains_key(u) ==> !first.initial_pods().contains(u) && w.pods[u]@.image_hash == first.images
        }),
    decreases i,
{
    if i > 0 {
        rollouts_replace_every_pod(worlds, events, i - 1);
        assert(follows(worlds[i - 1], events[i - 1], worlds[i - 1 + 1]));
        lemma_follows(worlds[i - 1], events[i - 1], worlds[i]);
    }
    rollouts_stay_within_their_bounds(worlds[i].task, worlds[i].pods);
}

/// Unless a start fails, or no pod may be added and none may be missing, a
/// rollout does not fail; every start and every pod that goes brings it nearer to
/// its end.
pub proof fn rollouts_come_to_an_end(t: RolloutFacts, event: RolloutEvent)
    requires
        t.well_formed(),
        t.expects(event),
        t.total <= usize::MAX,
        t.max_surge + t.max_unavailable > 0,
        event != RolloutEvent::StartFailed,
        event matches RolloutEvent::PodStarted(u) ==> !t.knows(u),
    ensures
        !(t.next(event).1 is Fail),
        t.next(event).0.left() == t.left() - (match event {
            RolloutEvent::PodStarted(_) => 1int,
            RolloutEvent::Retired => 1,
            _ => 0,
        }),
        t.next(event).0.left() == 0 ==> t.next(event).0.stage is Finished || t.next(event).0.stage is Awaiting,
{
    lemma_next(t, event);
    assert(uuids(t.old_pods).len() == t.old_pods.len());
}

/// Pods are started as far as there is room: after a start of so many there will be as
/// many new pods as there were old ones, or no room for more.
pub proof fn rollouts_start_as_many_as_fit(t: RolloutFacts)
    requires
        t.well_formed(),
        t.stage is Awaiting,
        t.total <= usize::MAX,
    ensures
        t.beginning().1 matches RolloutAction::StartPods(n) ==> {
            &&& n > 0
            &&& t.beginning().0.stage == RolloutStage::Starting(n)
            &&& t.new_pods.len() + n <= t.total
            &&& t.pods().len() + n <= t.total + t.max_surge
            &&& t.new_pods.len() + n == t.total || t.pods().len() + n == t.total + t.max_surge
        },
        t.new_pods.len() < t.total && t.pods().len() < t.total + t.max_surge ==> t.beginning().1 is StartPods,
        t.beginning().1 is Finish <==> t.old_pods.len() == 0 && t.new_pods.len() == t.total,
        t.beginning().1 matches RolloutAction::Retire(p) ==> t.old_pods.len() > 0 && p == t.old_pods[0]
            && t.beginning().0.old_pods == t.old_pods.skip(1) && t.beginning().0.stage == RolloutStage::Retiring(p.uuid),
{
    assert(uuids(t.old_pods).len() == t.old_pods.len());
}

/// Once the pods of a start are all there they are awaited: they are looked at until all
/// answer or the time is up, and no old pod goes before. Then an old pod goes wherever
/// enough are left without it.
pub proof fn rollouts_wait_before_pods_go(t: RolloutFacts, u: u128, waited: u128)
    requires
        t.well_formed(),
        t.total <= usize::MAX,
        t.timeout > 0,
    ensures
        t.stage == RolloutStage::Starting(1) && !t.knows(u) ==> t.next(RolloutEvent::PodStarted(u)).1 is CheckReady && t.next(
            RolloutEvent::PodStarted(u),
        ).0.stage is Awaiting,
        t.stage matches RolloutStage::Starting(n) && n > 1 && !t.knows(u) ==> t.next(RolloutEvent::PodStarted(u)).1
            is AwaitStart,
        t.stage is Awaiting ==> t.next(RolloutEvent::Checked(false)) == (t, RolloutAction::Wait(1_000_000_000)),
        t.stage is Awaiting && waited < t.timeout ==> t.next(RolloutEvent::Waited(waited)) == (
            t,
            RolloutAction::CheckReady,
        ),
        t.stage is Awaiting && t.old_pods.len() > 0 && t.pods().len() - 1 + t.max_unavailable >= t.total ==> (t.next(
            RolloutEvent::Checked(true),
        ).1 matches RolloutAction::Retire(p) && p == t.old_pods[0]),
        t.stage is Awaiting && waited >= t.timeout ==> t.next(RolloutEvent::Waited(waited)) == t.next(
            RolloutEvent::Checked(true),
        ),
        t.stage is Starting ==> t.next(RolloutEvent::StartFailed).1 is Fail && t.next(RolloutEvent::StartFailed).0.stage
            is Failed,
{
    assert(uuids(t.old_pods).len() == t.old_pods.len());
    assert(t.stage is Awaiting ==> t.at(RolloutStage::Awaiting) == t);
}

/// A rollout begins with every old pod and no new one, within the limits of the definition.
pub proof fn rollouts_begin_with_the_old_pods(
    service: Seq<char>,
    images: Map<Seq<char>, Seq<char>>,
    config: RollingUpdateConfig,
    old_pods: Seq<RetiredPod>,
)
    ensures
        ({
            let t = first_facts(service, images, config, old_pods);
            &&& t.total == old_pods.len()
            &&& t.old_pods == old_pods
            &&& t.new_pods.len() == 0
            &&& t.max_unavailable == config.max_unavailable
            &&& t.max_surge == config.max_surge
            &&& t.timeout == config.timeout
            &&& t.images == images
            &&& t.service_name == service
        }),
{
}

} // verus!
