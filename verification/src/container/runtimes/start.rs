//! Starting the containers of a pod.

use crate::config::limits;
use crate::config::limits::Amount;
use crate::config::limits::AmountFacts;
use crate::config::limits::EffectiveFacts;
use crate::config::limits::EffectiveLimit;
use crate::config::limits::LimitError;
use crate::config::utils;
use crate::config::ServiceConfig;
use crate::container::runtimes::docker;
use crate::container::runtimes::docker::PodNetwork;
use crate::container::runtimes::docker::PortSetup;
use crate::container::Container;
use crate::container::ContainerPortMetadata;
use crate::container::NetworkLimit;
use vstd::prelude::*;
use vstd::string::*;

verus! {

/// How a container is to be created.
#[derive(Debug)]
pub struct ContainerPlan {
    pub name: String,
    pub image: String,
    pub hostname: String,
    pub command: Option<Vec<String>>,
    pub network_mode: String,
    pub memory: EffectiveLimit,
    pub cpu: EffectiveLimit,
    pub ports: PortSetup,
    pub rates: Option<(Amount, Amount)>,
}

/// A command line, as texts.
pub open spec fn command_texts(c: Option<Vec<String>>) -> Option<Seq<Seq<char>>> {
    match c {
        Some(v) => Some(v@.map_values(|s: String| s@)),
        None => None,
    }
}

/// The rates that an optional network limit sets.
pub open spec fn optional_rates(limit: Option<NetworkLimit>) -> Result<
    Option<(AmountFacts, AmountFacts)>,
    LimitError,
> {
    match limit {
        Some(l) => docker::rates_of(l),
        None => Ok(None),
    }
}

/// The memory limit that the container is to have.
pub open spec fn planned_memory(container: Container, config: ServiceConfig) -> Result<EffectiveFacts, LimitError> {
    limits::effective(
        limits::optional_memory_limit(container.memory_limit),
        limits::optional_memory_limit(config.memory_limit),
    )
}

/// The CPU limit that the container is to have.
pub open spec fn planned_cpu(container: Container, config: ServiceConfig) -> Result<EffectiveFacts, LimitError> {
    limits::effective(limits::optional_cpu_limit(container.cpu_limit), limits::optional_cpu_limit(config.cpu_limit))
}

/// Why the container cannot be created: an unreadable limit, memory before CPU
/// before network.
pub open spec fn plan_error(container: Container, config: ServiceConfig) -> Option<LimitError> {
    match (planned_memory(container, config), planned_cpu(container, config), optional_rates(container.network_limit)) {
        (Err(e), _, _) => Some(e),
        (_, Err(e), _) => Some(e),
        (_, _, Err(e)) => Some(e),
        _ => None,
    }
}

/// A command line, copied.
fn copy_command(c: &Option<Vec<String>>) -> (r: Option<Vec<String>>)
    ensures
        command_texts(r) == command_texts(*c),
{
    match c {
        Some(v) => {
            let mut out: Vec<String> = Vec::new();
            let mut i: usize = 0;
            while i < v.len()
                invariant
                    i <= v@.len(),
                    out@ == v@.take(i as int),
                decreases v@.len() - i,
            {
                out.push(v[i].clone());
                assert(out@ =~= v@.take(i + 1));
                i = i + 1;
            }
            assert(out@ =~= v@);
            Some(out)
        },
        None => None,
    }
}

/// How a container of a pod is to be created.
pub fn plan_container(
    container: &Container,
    config: &ServiceConfig,
    service_name: &str,
    name: String,
    network: &PodNetwork,
) -> (r: Result<ContainerPlan, LimitError>)
    ensures
        match r {
            Ok(p) => {
                &&& plan_error(*container, *config) is None
                &&& p.name@ == name@
                &&& p.image@ == container.image@
                &&& p.hostname@ == service_name@ + "-"@ + container.name@
                &&& command_texts(p.command) == command_texts(container.command)
                &&& p.network_mode@ == network@.mode()
                &&& Ok::<EffectiveFacts, LimitError>(p.memory@) == planned_memory(*container, *config)
                &&& Ok::<EffectiveFacts, LimitError>(p.cpu@) == planned_cpu(*container, *config)
                &&& docker::is_port_setup(p.ports, docker::ports_of(*container))
                &&& Ok::<Option<(AmountFacts, AmountFacts)>, LimitError>(docker::rate_facts(p.rates))
                    == optional_rates(container.network_limit)
            },
            Err(e) => plan_error(*container, *config) == Some(e),
        },
        r matches Ok(p) ==> is_plan(p, *container, *config, service_name@, name@, network@),
{
    let ports: PortSetup = docker::prepare_port_configuration(container);
    let memory: EffectiveLimit = match limits::effective_memory_limit(&container.memory_limit, &config.memory_limit) {
        Ok(l) => l,
        Err(e) => {
            return Err(e);
        },
    };
    let cpu: EffectiveLimit = match limits::effective_cpu_limit(&container.cpu_limit, &config.cpu_limit) {
        Ok(l) => l,
        Err(e) => {
            return Err(e);
        },
    };
    let rates: Option<(Amount, Amount)> = match &container.network_limit {
        Some(l) => match docker::network_rates(l) {
            Ok(p) => p,
            Err(e) => {
                return Err(e);
            },
        },
        None => None,
    };
    Ok(
        ContainerPlan {
            name,
            image: container.image.clone(),
            hostname: service_name.to_owned().concat("-").concat(container.name.as_str()),
            command: copy_command(&container.command),
            network_mode: network.mode(),
            memory,
            cpu,
            ports,
            rates,
        },
    )
}

/// A new pod: its UUID and its network.
pub fn begin_pod(config: &ServiceConfig, service_name: &str) -> (r: (u128, PodNetwork))
    ensures
        utils::random_uuid(r.0),
        r.1@ == docker::network_choice(config.network, service_name@, r.0, config.spec.containers@.len()),
{
    let uuid: u128 = utils::new_uuid();
    (uuid, docker::choose_pod_network(config, service_name, uuid, config.spec.containers.len()))
}

/// What came of an attempt to start one container.
#[derive(Debug)]
pub enum StartOutcome {
    /// It could not be created.
    CreateFailed,
    /// It was created and could not be started.
    StartFailed,
    /// It was started and could not be inspected.
    InspectFailed,
    /// It was started and has no address in its network.
    NoAddress,
    /// It runs at this address.
    Running(String),
}

/// A container that runs.
#[derive(Debug)]
pub struct StartedContainer {
    pub name: String,
    pub ip: String,
    pub ports: Vec<ContainerPortMetadata>,
}

/// What a `StartedContainer` says.
pub struct StartedFacts {
    pub name: Seq<char>,
    pub ip: Seq<char>,
    pub ports: Seq<ContainerPortMetadata>,
}

impl View for StartedContainer {
    type V = StartedFacts;

    open spec fn view(&self) -> StartedFacts {
        StartedFacts { name: self.name@, ip: self.ip@, ports: self.ports@ }
    }
}

/// A pod in the course of being started.
#[derive(Debug)]
pub struct PodStart {
    started: Vec<StartedContainer>,
    failed: bool,
}

/// What a `PodStart` says.
pub struct PodStartFacts {
    /// The containers that run, in the order in which they were started.
    pub started: Seq<StartedFacts>,
    /// The pod is not to be kept.
    pub failed: bool,
}

impl View for PodStart {
    type V = PodStartFacts;

    closed spec fn view(&self) -> PodStartFacts {
        PodStartFacts { started: self.started@.map_values(|s: StartedContainer| s@), failed: self.failed }
    }
}

impl StartOutcome {
    /// The outcome ends the attempt.
    pub open spec fn fatal(self) -> bool {
        self is CreateFailed || self is StartFailed
    }

    /// The outcome spoils the pod.
    pub open spec fn spoils(self) -> bool {
        self.fatal() || self is NoAddress
    }
}

impl PodStartFacts {
    /// The pod after one more container.
    pub open spec fn after(self, name: Seq<char>, ports: Seq<ContainerPortMetadata>, outcome: StartOutcome) -> Self {
        match outcome {
            StartOutcome::Running(ip) => PodStartFacts {
                started: self.started.push(StartedFacts { name, ip: ip@, ports }),
                ..self
            },
            StartOutcome::InspectFailed => self,
            _ => PodStartFacts { failed: true, ..self },
        }
    }

    /// The names of the containers that run.
    pub open spec fn names(self) -> Seq<Seq<char>> {
        self.started.map_values(|s: StartedFacts| s.name)
    }
}

/// What is left to do about a pod that failed to start.
#[derive(Debug)]
pub struct FailedPod {
    /// The containers to stop.
    pub stop: Vec<String>,
    /// The network that is no longer used.
    pub network: Option<String>,
}

impl PodStart {
    /// No container started yet.
    pub fn new() -> (r: Self)
        ensures
            r@.started == Seq::<StartedFacts>::empty(),
            !r@.failed,
    {
        let r: PodStart = PodStart { started: Vec::new(), failed: false };
        assert(r@.started =~= Seq::<StartedFacts>::empty());
        r
    }

    /// Takes in what came of one container. The result says whether to go on to
    /// the next.
    pub fn record(&mut self, name: String, ports: Vec<ContainerPortMetadata>, outcome: StartOutcome) -> (r: bool)
        ensures
            final(self)@ == old(self)@.after(name@, ports@, outcome),
            r == !outcome.fatal(),
    {
        match outcome {
            StartOutcome::Running(ip) => {
                let container: StartedContainer = StartedContainer { name, ip, ports };
                self.started.push(container);
                assert(self@.started =~= old(self)@.started.push(container@));
                true
            },
            StartOutcome::InspectFailed => true,
            StartOutcome::NoAddress => {
                self.failed = true;
                true
            },
            StartOutcome::CreateFailed => {
                self.failed = true;
                false
            },
            StartOutcome::StartFailed => {
                self.failed = true;
                false
            },
        }
    }

    /// The containers of the pod or, where it failed, what to take down again:
    /// every container that runs, and the pod's network.
    pub fn finish(self, network: &PodNetwork) -> (r: Result<Vec<StartedContainer>, FailedPod>)
        ensures
            match r {
                Ok(s) => !self@.failed && s@.map_values(|c: StartedContainer| c@) == self@.started,
                Err(f) => {
                    &&& self@.failed
                    &&& f.stop@.map_values(|s: String| s@) == self@.names()
                    &&& docker::optional_text(f.network) == network@.name()
                },
            },
            is_finished(r, self@, network@),
    {
        if !self.failed {
            return Ok(self.started);
        }
        let mut stop: Vec<String> = Vec::new();
        let mut i: usize = 0;
        while i < self.started.len()
            invariant
                i <= self.started@.len(),
                stop@.len() == i,
                forall|j: int| 0 <= j < i ==> (#[trigger] stop@[j])@ == self.started@[j].name@,
            decreases self.started@.len() - i,
        {
            stop.push(self.started[i].name.clone());
            i = i + 1;
        }
        assert(stop@.map_values(|s: String| s@) =~= self@.names());
        Err(FailedPod { stop, network: network.name() })
    }
}

/// The pod after a run of outcomes, of which the first fatal one is the last to
/// count.
pub open spec fn run(
    outcomes: Seq<(Seq<char>, Seq<ContainerPortMetadata>, StartOutcome)>,
) -> PodStartFacts
    decreases outcomes.len(),
{
    if outcomes.len() == 0 {
        PodStartFacts { started: Seq::empty(), failed: false }
    } else {
        let before = run(outcomes.drop_last());
        if exists|i: int| 0 <= i < outcomes.len() - 1 && (#[trigger] outcomes[i]).2.fatal() {
            before
        } else {
            before.after(outcomes.last().0, outcomes.last().1, outcomes.last().2)
        }
    }
}

/// A pod is kept only if no container of it failed to be created, to start, or
/// to get an address.
pub proof fn kept_pods_are_whole(outcomes: Seq<(Seq<char>, Seq<ContainerPortMetadata>, StartOutcome)>, i: int)
    requires
        !run(outcomes).failed,
        0 <= i < outcomes.len(),
    ensures
        !outcomes[i].2.spoils(),
    decreases outcomes.len(),
{
    let rest = outcomes.drop_last();
    assert(!run(rest).failed);
    assert forall|k: int| 0 <= k < rest.len() implies !(#[trigger] outcomes[k]).2.fatal() by {
        kept_pods_are_whole(rest, k);
        assert(rest[k] == outcomes[k]);
    }
    if i < rest.len() {
        kept_pods_are_whole(rest, i);
        assert(rest[i] == outcomes[i]);
    }
}

/// A container that was found running before the pod failed is among those to
/// stop.
pub proof fn no_started_container_is_forgotten(
    outcomes: Seq<(Seq<char>, Seq<ContainerPortMetadata>, StartOutcome)>,
    i: int,
)
    requires
        0 <= i < outcomes.len(),
        outcomes[i].2 is Running,
        forall|k: int| 0 <= k < i ==> !(#[trigger] outcomes[k]).2.fatal(),
    ensures
        run(outcomes).names().contains(outcomes[i].0),
    decreases outcomes.len(),
{
    let rest = outcomes.drop_last();
    if i < rest.len() {
        assert(rest[i] == outcomes[i]);
        assert forall|k: int| 0 <= k < i implies !(#[trigger] rest[k]).2.fatal() by {
            assert(rest[k] == outcomes[k]);
        }
        no_started_container_is_forgotten(rest, i);
        let before = run(rest).names();
        let j = choose|j: int| 0 <= j < before.len() && before[j] == outcomes[i].0;
        assert(run(outcomes).names()[j] == before[j]);
    } else {
        let before = run(rest);
        let n = before.started.len() as int;
        assert(run(outcomes) == before.after(outcomes.last().0, outcomes.last().1, outcomes.last().2));
        assert(run(outcomes).names()[n] == outcomes[i].0);
    }
}

/// A container can be planned exactly where each of its limits can be read; of
/// several that cannot, memory is named before CPU, and CPU before the network.
pub proof fn containers_with_readable_limits_are_planned(container: Container, config: ServiceConfig)
    ensures
        plan_error(container, config) is None <==> planned_memory(container, config) is Ok && planned_cpu(
            container,
            config,
        ) is Ok && (container.network_limit matches Some(l) ==> docker::rates_of(l) is Ok),
        planned_memory(container, config) matches Err(e) ==> plan_error(container, config) == Some(e),
        planned_memory(container, config) is Ok ==> (planned_cpu(container, config) matches Err(e) ==> plan_error(
            container,
            config,
        ) == Some(e)),
{
}

/// The limits of a container are its own where it has any, each on its own, and else
/// those of its service.
pub proof fn each_limit_falls_back_on_its_own(container: Container, config: ServiceConfig)
    ensures
        container.memory_limit matches Some(v) ==> planned_memory(container, config) == (match limits::memory_limit(v) {
            Ok(a) => Ok::<EffectiveFacts, LimitError>(EffectiveFacts::Container(a)),
            Err(e) => Err(e),
        }),
        container.cpu_limit matches Some(v) ==> planned_cpu(container, config) == (match limits::cpu_limit(v) {
            Ok(a) => Ok::<EffectiveFacts, LimitError>(EffectiveFacts::Container(a)),
            Err(e) => Err(e),
        }),
        container.memory_limit is None ==> planned_memory(container, config) == Ok::<EffectiveFacts, LimitError>(
            match config.memory_limit {
                Some(v) => match limits::memory_limit(v) {
                    Ok(a) => EffectiveFacts::Service(a),
                    Err(_) => EffectiveFacts::Unlimited,
                },
                None => EffectiveFacts::Unlimited,
            },
        ),
        container.cpu_limit is None ==> planned_cpu(container, config) == Ok::<EffectiveFacts, LimitError>(
            match config.cpu_limit {
                Some(v) => match limits::cpu_limit(v) {
                    Ok(a) => EffectiveFacts::Service(a),
                    Err(_) => EffectiveFacts::Unlimited,
                },
                None => EffectiveFacts::Unlimited,
            },
        ),
{
}

/// A container that runs joins its pod, after those before it, with its address and
/// its ports. One that could not be created or started, or has no address, makes the
/// pod fail; one that could not be looked at is passed over. No container that runs is
/// lost by any of these.
pub proof fn running_containers_join_their_pod(
    pod: PodStartFacts,
    name: Seq<char>,
    ports: Seq<ContainerPortMetadata>,
    ip: String,
)
    ensures
        pod.after(name, ports, StartOutcome::Running(ip)).started == pod.started.push(
            StartedFacts { name, ip: ip@, ports },
        ),
        pod.after(name, ports, StartOutcome::Running(ip)).failed == pod.failed,
        pod.after(name, ports, StartOutcome::InspectFailed) == pod,
        pod.after(name, ports, StartOutcome::CreateFailed) == (PodStartFacts { failed: true, ..pod }),
        pod.after(name, ports, StartOutcome::StartFailed) == (PodStartFacts { failed: true, ..pod }),
        pod.after(name, ports, StartOutcome::NoAddress) == (PodStartFacts { failed: true, ..pod }),
{
}

/// After a container that could not be created or started, none is started any more;
/// after any other, the next one is.
pub proof fn pods_stop_at_the_first_fatal_failure(
    outcomes: Seq<(Seq<char>, Seq<ContainerPortMetadata>, StartOutcome)>,
    next: (Seq<char>, Seq<ContainerPortMetadata>, StartOutcome),
)
    ensures
        (exists|i: int|
            0 <= i < outcomes.len() && ((#[trigger] outcomes[i]).2 is CreateFailed || outcomes[i].2 is StartFailed))
            ==> run(outcomes.push(next)) == run(outcomes),
        (forall|i: int|
            0 <= i < outcomes.len() ==> !((#[trigger] outcomes[i]).2 is CreateFailed || outcomes[i].2 is StartFailed))
            ==> run(outcomes.push(next)) == run(outcomes).after(next.0, next.1, next.2),
{
    let all = outcomes.push(next);
    assert(all.drop_last() =~= outcomes);
    if exists|i: int|
        0 <= i < outcomes.len() && ((#[trigger] outcomes[i]).2 is CreateFailed || outcomes[i].2 is StartFailed) {
        let i = choose|i: int|
            0 <= i < outcomes.len() && ((#[trigger] outcomes[i]).2 is CreateFailed || outcomes[i].2 is StartFailed);
        assert(all[i].2.fatal());
    } else {
        assert forall|i: int| 0 <= i < all.len() - 1 implies !(#[trigger] all[i]).2.fatal() by {
            assert(all[i] == outcomes[i]);
        }
    }
}

/// A pod fails only where a container of it could not be created or started, or has
/// no address.
pub proof fn failed_pods_have_a_reason(outcomes: Seq<(Seq<char>, Seq<ContainerPortMetadata>, StartOutcome)>)
    requires
        run(outcomes).failed,
    ensures
        exists|i: int|
            0 <= i < outcomes.len() && ((#[trigger] outcomes[i]).2 is CreateFailed || outcomes[i].2 is StartFailed
                || outcomes[i].2 is NoAddress),
    decreases outcomes.len(),
{
    if outcomes.len() > 0 {
        let rest = outcomes.drop_last();
        if run(rest).failed {
            failed_pods_have_a_reason(rest);
            let i = choose|i: int|
                0 <= i < rest.len() && ((#[trigger] rest[i]).2 is CreateFailed || rest[i].2 is StartFailed || rest[i].2
                    is NoAddress);
            assert(outcomes[i] == rest[i]);
        } else {
            assert(outcomes[outcomes.len() - 1].2.spoils());
        }
    }
}

/// `p` is how the container is created.
pub open spec fn is_plan(
    p: ContainerPlan,
    container: Container,
    config: ServiceConfig,
    service: Seq<char>,
    name: Seq<char>,
    network: docker::PodNetworkFacts,
) -> bool {
    &&& p.name@ == name
    &&& p.image@ == container.image@
    &&& p.hostname@ == service + "-"@ + container.name@
    &&& command_texts(p.command) == command_texts(container.command)
    &&& p.network_mode@ == network.mode()
    &&& Ok::<EffectiveFacts, LimitError>(p.memory@) == planned_memory(container, config)
    &&& Ok::<EffectiveFacts, LimitError>(p.cpu@) == planned_cpu(container, config)
    &&& docker::is_port_setup(p.ports, docker::ports_of(container))
    &&& Ok::<Option<(AmountFacts, AmountFacts)>, LimitError>(docker::rate_facts(p.rates)) == optional_rates(
        container.network_limit,
    )
}

/// A container is created from its image under its name, reached by its service and its own
/// name, with its command where it has one, in the network of its pod, and with its ports,
/// each as it was given.
pub proof fn containers_are_created_as_defined(
    p: ContainerPlan,
    container: Container,
    config: ServiceConfig,
    service: Seq<char>,
    name: Seq<char>,
    network: docker::PodNetworkFacts,
)
    requires
        is_plan(p, container, config, service, name, network),
    ensures
        p.name@ == name,
        p.image@ == container.image@,
        p.hostname@ == service + "-"@ + container.name@,
        p.command is Some == container.command is Some,
        p.command matches Some(c) ==> c@.len() == container.command->0@.len() && forall|i: int|
            0 <= i < c@.len() ==> (#[trigger] c@[i])@ == container.command->0@[i]@,
        network matches docker::PodNetworkFacts::Shared(n) ==> p.network_mode@ == n,
        network matches docker::PodNetworkFacts::Dedicated(n) ==> p.network_mode@ == n,
        network is Default ==> p.network_mode@ == "bridge"@,
        container.network_limit is None ==> p.rates is None,
        container.ports is None ==> p.ports.metadata@.len() == 0,
        container.ports matches Some(list) ==> p.ports.metadata@.len() == list@.len() && forall|i: int|
            0 <= i < list@.len() ==> (#[trigger] p.ports.metadata@[i]).port == list@[i].port
                && p.ports.metadata@[i].target_port == list@[i].target_port && p.ports.metadata@[i].node_port
                == list@[i].node_port,
{
    if let Some(c) = p.command {
        let (a, b) = (c@.map_values(|s: String| s@), container.command->0@.map_values(|s: String| s@));
        assert(a == b);
        assert(a.len() == c@.len());
        assert forall|i: int| 0 <= i < c@.len() implies (#[trigger] c@[i])@ == container.command->0@[i]@ by {
            assert(a[i] == b[i]);
        }
    }
}

/// `r` is how the start of a pod ends.
pub open spec fn is_finished(
    r: Result<Vec<StartedContainer>, FailedPod>,
    pod: PodStartFacts,
    network: docker::PodNetworkFacts,
) -> bool {
    match r {
        Ok(s) => !pod.failed && s@.map_values(|c: StartedContainer| c@) == pod.started,
        Err(f) => {
            &&& pod.failed
            &&& f.stop@.map_values(|s: String| s@) == pod.names()
            &&& docker::optional_text(f.network) == network.name()
        },
    }
}

/// A pod that did not fail is there with all its containers. Of one that failed every
/// container that runs is stopped, and its network, if it is not the default one, given
/// back.
pub proof fn failed_pods_are_taken_down(
    r: Result<Vec<StartedContainer>, FailedPod>,
    pod: PodStartFacts,
    network: docker::PodNetworkFacts,
    i: int,
)
    requires
        is_finished(r, pod, network),
        0 <= i < pod.started.len(),
    ensures
        r is Ok <==> !pod.failed,
        r matches Ok(s) ==> s@.len() == pod.started.len() && s@[i]@ == pod.started[i],
        r matches Err(f) ==> f.stop@.len() == pod.started.len() && f.stop@[i]@ == pod.started[i].name,
        r matches Err(f) ==> (f.network is None <==> network is Default),
        r matches Err(f) ==> (f.network matches Some(n) ==> network == docker::PodNetworkFacts::Shared(n@) || network
            == docker::PodNetworkFacts::Dedicated(n@)),
{
    match r {
        Ok(s) => {
            assert(s@.map_values(|c: StartedContainer| c@)[i] == pod.started[i]);
        },
        Err(f) => {
            assert(f.stop@.map_values(|s: String| s@).len() == f.stop@.len());
            assert(pod.names().len() == pod.started.len());
            assert(f.stop@.map_values(|s: String| s@)[i] == pod.names()[i]);
        },
    }
}

} // verus!
