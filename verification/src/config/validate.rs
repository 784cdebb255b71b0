//! Checks on service definitions.

use crate::config::store;
use crate::config::store::ConfigStore;
use crate::config::store::StoredConfig;
use crate::config::ServiceConfig;
use crate::container::Container;
use crate::container::ContainerPort;
use crate::pattern;
use crate::text;
use std::collections::HashSet;
use std::sync::Arc;
use vstd::prelude::*;
use vstd::string::*;

verus! {

/// Why the names in a definition are refused.
#[derive(Debug)]
pub enum ConfigValidationError {
    DuplicateServiceName(String),
    /// The container and its service.
    DuplicateContainerName(String, String),
    /// The name and the rule it breaks.
    InvalidServiceName(String, String),
    /// The name and the rule it breaks.
    InvalidContainerName(String, String),
}

/// What a `ConfigValidationError` says.
pub enum NameProblem {
    DuplicateServiceName(Seq<char>),
    DuplicateContainerName(Seq<char>, Seq<char>),
    InvalidServiceName(Seq<char>, Seq<char>),
    InvalidContainerName(Seq<char>, Seq<char>),
}

impl View for ConfigValidationError {
    type V = NameProblem;

    open spec fn view(&self) -> NameProblem {
        match self {
            ConfigValidationError::DuplicateServiceName(s) => NameProblem::DuplicateServiceName(s@),
            ConfigValidationError::DuplicateContainerName(c, s) => NameProblem::DuplicateContainerName(c@, s@),
            ConfigValidationError::InvalidServiceName(n, r) => NameProblem::InvalidServiceName(n@, r@),
            ConfigValidationError::InvalidContainerName(n, r) => NameProblem::InvalidContainerName(n@, r@),
        }
    }
}

/// Why the ports in a definition are refused.
#[derive(Debug)]
pub enum PortValidationError {
    DuplicatePortInService { port_type: String, port: u16, service: String },
    PortConflictBetweenServices { port_type: String, port: u16, service1: String, service2: String },
}

/// What a `PortValidationError` says.
pub enum PortProblem {
    DuplicatePortInService { port_type: Seq<char>, port: u16, service: Seq<char> },
    PortConflictBetweenServices { port_type: Seq<char>, port: u16, service1: Seq<char>, service2: Seq<char> },
}

impl View for PortValidationError {
    type V = PortProblem;

    open spec fn view(&self) -> PortProblem {
        match self {
            PortValidationError::DuplicatePortInService { port_type, port, service } => {
                PortProblem::DuplicatePortInService { port_type: port_type@, port: *port, service: service@ }
            },
            PortValidationError::PortConflictBetweenServices { port_type, port, service1, service2 } => {
                PortProblem::PortConflictBetweenServices {
                    port_type: port_type@,
                    port: *port,
                    service1: service1@,
                    service2: service2@,
                }
            },
        }
    }
}

impl ConfigValidationError {
    /// The text for the error.
    pub fn message(&self) -> (r: String)
        ensures
            r@ == (match self@ {
                NameProblem::DuplicateServiceName(s) => "Duplicate service name '"@ + s + "' found"@,
                NameProblem::DuplicateContainerName(c, s) => {
                    "Duplicate container name '"@ + c + "' found in service '"@ + s + "'"@
                },
                NameProblem::InvalidServiceName(n, why) => "Invalid service name '"@ + n + "': "@ + why,
                NameProblem::InvalidContainerName(n, why) => "Invalid container name '"@ + n + "': "@ + why,
            }),
    {
        match self {
            ConfigValidationError::DuplicateServiceName(s) => {
                "Duplicate service name '".to_owned().concat(s.as_str()).concat("' found")
            },
            ConfigValidationError::DuplicateContainerName(c, s) => {
                "Duplicate container name '".to_owned().concat(c.as_str()).concat("' found in service '").concat(
                    s.as_str(),
                ).concat("'")
            },
            ConfigValidationError::InvalidServiceName(n, why) => {
                "Invalid service name '".to_owned().concat(n.as_str()).concat("': ").concat(why.as_str())
            },
            ConfigValidationError::InvalidContainerName(n, why) => {
                "Invalid container name '".to_owned().concat(n.as_str()).concat("': ").concat(why.as_str())
            },
        }
    }
}

impl PortValidationError {
    /// The text for the error.
    pub fn message(&self) -> (r: String)
        ensures
            r@ == (match self@ {
                PortProblem::DuplicatePortInService { port_type, port, service } => {
                    "Duplicate "@ + port_type + " port "@ + text::decimal(port as nat) + " found in service '"@
                        + service + "'"@
                },
                PortProblem::PortConflictBetweenServices { port_type, port, service1, service2 } => {
                    port_type + " port "@ + text::decimal(port as nat) + " in service '"@ + service1
                        + "' conflicts with service '"@ + service2 + "'"@
                },
            }),
    {
        match self {
            PortValidationError::DuplicatePortInService { port_type, port, service } => {
                let number: String = text::decimal_of(*port as u128);
                "Duplicate ".to_owned().concat(port_type.as_str()).concat(" port ").concat(number.as_str()).concat(
                    " found in service '",
                ).concat(service.as_str()).concat("'")
            },
            PortValidationError::PortConflictBetweenServices { port_type, port, service1, service2 } => {
                let number: String = text::decimal_of(*port as u128);
                port_type.clone().concat(" port ").concat(number.as_str()).concat(" in service '").concat(
                    service1.as_str(),
                ).concat("' conflicts with service '").concat(service2.as_str()).concat("'")
            },
        }
    }
}

/// A port of the host that a definition claims.
#[derive(Clone, Copy, PartialEq, Eq, Structural, Debug)]
pub struct PortClaim {
    /// Claimed for the proxy, rather than for a container.
    pub node: bool,
    pub port: u16,
}

/// The word for the kind of claim.
pub open spec fn claim_word(c: PortClaim) -> Seq<char> {
    if c.node {
        "node"@
    } else {
        "target"@
    }
}

/// The ports that one entry claims, the target port first.
pub open spec fn entry_claims(p: ContainerPort) -> Seq<PortClaim> {
    let target = match p.target_port {
        Some(t) => seq![PortClaim { node: false, port: t }],
        None => seq![],
    };
    let node = match p.node_port {
        Some(n) => seq![PortClaim { node: true, port: n }],
        None => seq![],
    };
    target + node
}

/// The ports that a list of entries claims, in order.
pub open spec fn list_claims(ports: Seq<ContainerPort>) -> Seq<PortClaim>
    decreases ports.len(),
{
    if ports.len() == 0 {
        Seq::empty()
    } else {
        list_claims(ports.drop_last()) + entry_claims(ports.last())
    }
}

/// The ports that a container claims.
pub open spec fn container_claims(c: Container) -> Seq<PortClaim> {
    match c.ports {
        Some(p) => list_claims(p@),
        None => Seq::empty(),
    }
}

/// The ports that the containers of a service claim, in order.
pub open spec fn claims(containers: Seq<Container>) -> Seq<PortClaim>
    decreases containers.len(),
{
    if containers.len() == 0 {
        Seq::empty()
    } else {
        claims(containers.drop_last()) + container_claims(containers.last())
    }
}

/// The `i`-th claim is for a port that an earlier one claims.
pub open spec fn repeats(c: Seq<PortClaim>, i: int) -> bool {
    0 <= i < c.len() && exists|j: int| 0 <= j < i && (#[trigger] c[j]).port == c[i].port
}

/// Some claim is for the port.
pub open spec fn claimed(c: Seq<PortClaim>, port: u16) -> bool {
    exists|j: int| 0 <= j < c.len() && (#[trigger] c[j]).port == port
}

/// The `i`-th claim of `theirs` is the first for a port that `ours` claims too.
pub open spec fn first_clash(ours: Seq<PortClaim>, theirs: Seq<PortClaim>, i: int) -> bool {
    &&& 0 <= i < theirs.len()
    &&& claimed(ours, theirs[i].port)
    &&& forall|k: int| 0 <= k < i ==> !claimed(ours, (#[trigger] theirs[k]).port)
}

/// No port is claimed by both.
pub open spec fn disjoint(ours: Seq<PortClaim>, theirs: Seq<PortClaim>) -> bool {
    forall|k: int| 0 <= k < theirs.len() ==> !claimed(ours, (#[trigger] theirs[k]).port)
}

/// The ports that the definition claims, in order.
pub fn collect_claims(config: &ServiceConfig) -> (r: Vec<PortClaim>)
    ensures
        r@ == claims(config.spec.containers@),
{
    let mut r: Vec<PortClaim> = Vec::new();
    let containers: &Vec<Container> = &config.spec.containers;
    let mut i: usize = 0;
    assert(containers@.take(0) =~= Seq::empty());
    while i < containers.len()
        invariant
            i <= containers@.len(),
            r@ == claims(containers@.take(i as int)),
        decreases containers@.len() - i,
    {
        let ghost before = r@;
        assert(containers@.take(i + 1).drop_last() =~= containers@.take(i as int));
        match &containers[i].ports {
            Some(ports) => {
                let mut j: usize = 0;
                assert(ports@.take(0) =~= Seq::empty());
                assert(before + list_claims(ports@.take(0)) =~= before);
                while j < ports.len()
                    invariant
                        j <= ports@.len(),
                        r@ == before + list_claims(ports@.take(j as int)),
                    decreases ports@.len() - j,
                {
                    let p: ContainerPort = ports[j];
                    let ghost so_far = list_claims(ports@.take(j as int));
                    assert(ports@.take(j + 1).drop_last() =~= ports@.take(j as int));
                    if let Some(t) = p.target_port {
                        r.push(PortClaim { node: false, port: t });
                    }
                    if let Some(n) = p.node_port {
                        r.push(PortClaim { node: true, port: n });
                    }
                    assert(r@ =~= before + (so_far + entry_claims(p)));
                    j = j + 1;
                }
                assert(ports@.take(j as int) =~= ports@);
            },
            None => {
                assert(before + Seq::<PortClaim>::empty() =~= before);
            },
        }
        i = i + 1;
    }
    assert(containers@.take(i as int) =~= containers@);
    r
}

/// The word for the kind of claim.
fn word_of(c: &PortClaim) -> (r: String)
    ensures
        r@ == claim_word(*c),
{
    if c.node {
        "node".to_owned()
    } else {
        "target".to_owned()
    }
}

/// Refuses a definition in which a port of the host is claimed twice, naming the
/// first claim that repeats one.
pub fn validate_service_ports(config: &ServiceConfig) -> (r: Result<(), PortValidationError>)
    ensures
        ({
            let c = claims(config.spec.containers@);
            match r {
                Ok(_) => forall|i: int| !repeats(c, i),
                Err(e) => exists|i: int|
                    #![trigger repeats(c, i)]
                    {
                        &&& repeats(c, i)
                        &&& forall|k: int| 0 <= k < i ==> !#[trigger] repeats(c, k)
                        &&& e@ == (PortProblem::DuplicatePortInService {
                            port_type: claim_word(c[i]),
                            port: c[i].port,
                            service: config.name@,
                        })
                    },
            }
        }),
{
    let all: Vec<PortClaim> = collect_claims(config);
    let mut seen: HashSet<u16> = HashSet::new();
    let mut i: usize = 0;
    while i < all.len()
        invariant
            i <= all@.len(),
            all@ == claims(config.spec.containers@),
            forall|p: u16| seen@.contains(p) == claimed(all@.take(i as int), p),
            forall|k: int| 0 <= k < i ==> !#[trigger] repeats(all@, k),
        decreases all@.len() - i,
    {
        let claim: PortClaim = all[i];
        let fresh: bool = seen.insert(claim.port);
        proof {
            let done = all@.take(i as int);
            let next = all@.take(i + 1);
            assert(claimed(done, claim.port) == repeats(all@, i as int)) by {
                if claimed(done, claim.port) {
                    let j = choose|j: int| 0 <= j < done.len() && (#[trigger] done[j]).port == claim.port;
                    assert(all@[j].port == claim.port);
                }
                if repeats(all@, i as int) {
                    let j = choose|j: int| 0 <= j < i && (#[trigger] all@[j]).port == claim.port;
                    assert(done[j].port == claim.port);
                }
            }
            assert forall|p: u16| claimed(next, p) == (claimed(done, p) || p == claim.port) by {
                assert(next[i as int] == claim);
                if claimed(done, p) {
                    let j = choose|j: int| 0 <= j < done.len() && (#[trigger] done[j]).port == p;
                    assert(next[j] == done[j]);
                }
                if claimed(next, p) && p != claim.port {
                    let j = choose|j: int| 0 <= j < next.len() && (#[trigger] next[j]).port == p;
                    assert(done[j] == next[j]);
                }
            }
        }
        if !fresh {
            return Err(
                PortValidationError::DuplicatePortInService {
                    port_type: word_of(&claim),
                    port: claim.port,
                    service: config.name.clone(),
                },
            );
        }
        i = i + 1;
    }
    Ok(())
}

/// The first claim of `theirs` for a port that `ours` claims too.
pub fn find_clash(ours: &Vec<PortClaim>, theirs: &Vec<PortClaim>) -> (r: Option<usize>)
    ensures
        match r {
            Some(i) => first_clash(ours@, theirs@, i as int),
            None => disjoint(ours@, theirs@),
        },
{
    let mut i: usize = 0;
    while i < theirs.len()
        invariant
            i <= theirs@.len(),
            forall|k: int| 0 <= k < i ==> !claimed(ours@, (#[trigger] theirs@[k]).port),
        decreases theirs@.len() - i,
    {
        let mut j: usize = 0;
        while j < ours.len()
            invariant
                j <= ours@.len(),
                i < theirs@.len(),
                forall|k: int| 0 <= k < i ==> !claimed(ours@, (#[trigger] theirs@[k]).port),
                forall|k: int| 0 <= k < j ==> (#[trigger] ours@[k]).port != theirs@[i as int].port,
            decreases ours@.len() - j,
        {
            if ours[j].port == theirs[i].port {
                return Some(i);
            }
            j = j + 1;
        }
        i = i + 1;
    }
    None
}

/// The definition under `k` is one that a new definition must not clash with.
pub open spec fn rival(
    m: Map<Seq<char>, Arc<StoredConfig>>,
    k: Seq<char>,
    name: Seq<char>,
    exclude: Option<Seq<char>>,
) -> bool {
    &&& m.contains_key(k)
    &&& m[k].config.name@ != name
    &&& exclude != Some(m[k].config.name@)
}

/// The name to leave out, as a text.
pub open spec fn excluded(exclude: Option<&str>) -> Option<Seq<char>> {
    match exclude {
        Some(e) => Some(e@),
        None => None,
    }
}

/// Refuses a definition that claims a port which another service claims, naming
/// the first such claim of one such service.
pub fn check_port_conflicts(new_config: &ServiceConfig, m: &ConfigStore, exclude_service: Option<&str>) -> (r: Result<
    (),
    PortValidationError,
>)
    ensures
        ({
            let held = store::stored(*m);
            let ours = claims(new_config.spec.containers@);
            match r {
                Ok(_) => forall|k: Seq<char>| #[trigger]
                    rival(held, k, new_config.name@, excluded(exclude_service)) ==> disjoint(
                        ours,
                        claims(held[k].config.spec.containers@),
                    ),
                Err(e) => exists|k: Seq<char>, i: int|
                    #![trigger held.contains_key(k), claims(held[k].config.spec.containers@)[i]]
                    {
                        let theirs = claims(held[k].config.spec.containers@);
                        &&& rival(held, k, new_config.name@, excluded(exclude_service))
                        &&& first_clash(ours, theirs, i)
                        &&& e@ == (PortProblem::PortConflictBetweenServices {
                            port_type: claim_word(theirs[i]),
                            port: theirs[i].port,
                            service1: new_config.name@,
                            service2: held[k].config.name@,
                        })
                    },
            }
        }),
{
    let ours: Vec<PortClaim> = collect_claims(new_config);
    let entries: Vec<(String, Arc<StoredConfig>)> = store::all(m);
    let ghost held = store::stored(*m);
    let ghost skip = excluded(exclude_service);
    let mut i: usize = 0;
    while i < entries.len()
        invariant
            i <= entries@.len(),
            held == store::stored(*m),
            store::lists(entries@, held),
            skip == excluded(exclude_service),
            ours@ == claims(new_config.spec.containers@),
            forall|j: int|
                0 <= j < i ==> rival(held, (#[trigger] entries@[j]).0@, new_config.name@, skip) ==> disjoint(
                    ours@,
                    claims(entries@[j].1.config.spec.containers@),
                ),
        decreases entries@.len() - i,
    {
        let existing: &ServiceConfig = &entries[i].1.config;
        let ghost key = entries@[i as int].0@;
        let is_excluded: bool = match exclude_service {
            Some(e) => text::same(existing.name.as_str(), e),
            None => false,
        };
        if !is_excluded && existing.name != new_config.name {
            assert(rival(held, key, new_config.name@, skip));
            let theirs: Vec<PortClaim> = collect_claims(existing);
            if let Some(c) = find_clash(&ours, &theirs) {
                let claim: PortClaim = theirs[c];
                assert(held.contains_key(key) && claims(held[key].config.spec.containers@)[c as int] == claim);
                return Err(
                    PortValidationError::PortConflictBetweenServices {
                        port_type: word_of(&claim),
                        port: claim.port,
                        service1: new_config.name.clone(),
                        service2: existing.name.clone(),
                    },
                );
            }
        }
        i = i + 1;
    }
    proof {
        assert forall|k: Seq<char>| #[trigger] rival(held, k, new_config.name@, skip) implies disjoint(
            ours@,
            claims(held[k].config.spec.containers@),
        ) by {
            let j = choose|j: int| 0 <= j < entries@.len() && (#[trigger] entries@[j]).0@ == k;
            assert(rival(held, entries@[j].0@, new_config.name@, skip));
        }
    }
    Ok(())
}

/// The rule for service names.
pub open spec fn service_name_rule() -> Seq<char> {
    "Service name must be a valid DNS label: lowercase alphanumeric characters or '-', starting and ending with alphanumeric"@
}

/// The rule for container names.
pub open spec fn container_name_rule() -> Seq<char> {
    "Container name must be a valid DNS label: lowercase alphanumeric characters or '-', starting and ending with alphanumeric"@
}

/// Refuses a service name that is no DNS label.
pub fn validate_service_name(name: &str) -> (r: Result<(), ConfigValidationError>)
    ensures
        r is Ok <==> pattern::dns_label(name@),
        r matches Err(e) ==> e@ == NameProblem::InvalidServiceName(name@, service_name_rule()),
{
    if !pattern::is_match("^[a-z0-9]([a-z0-9-]{0,61}[a-z0-9])?$", name) {
        return Err(
            ConfigValidationError::InvalidServiceName(
                name.to_owned(),
                "Service name must be a valid DNS label: lowercase alphanumeric characters or '-', starting and ending with alphanumeric".to_owned(),
            ),
        );
    }
    Ok(())
}

/// Refuses a container name that is no DNS label.
pub fn validate_container_name(name: &str) -> (r: Result<(), ConfigValidationError>)
    ensures
        r is Ok <==> pattern::dns_label(name@),
        r matches Err(e) ==> e@ == NameProblem::InvalidContainerName(name@, container_name_rule()),
{
    if !pattern::is_match("^[a-z0-9]([a-z0-9-]{0,61}[a-z0-9])?$", name) {
        return Err(
            ConfigValidationError::InvalidContainerName(
                name.to_owned(),
                "Container name must be a valid DNS label: lowercase alphanumeric characters or '-', starting and ending with alphanumeric".to_owned(),
            ),
        );
    }
    Ok(())
}

/// Refuses a definition whose name another definition has, unless that name is
/// the one being updated.
pub fn check_service_name_uniqueness(config: &ServiceConfig, m: &ConfigStore, exclude_service: Option<&str>) -> (r:
    Result<(), ConfigValidationError>)
    ensures
        r is Err <==> excluded(exclude_service) != Some(config.name@) && exists|k: Seq<char>| #[trigger]
            store::stored(*m).contains_key(k) && store::stored(*m)[k].config.name@ == config.name@,
        r is Err <==> name_in_use(store::stored(*m), config.name@, excluded(exclude_service)),
        r matches Err(e) ==> e@ == NameProblem::DuplicateServiceName(config.name@),
{
    let entries: Vec<(String, Arc<StoredConfig>)> = store::all(m);
    let ghost held = store::stored(*m);
    let mut i: usize = 0;
    while i < entries.len()
        invariant
            i <= entries@.len(),
            held == store::stored(*m),
            store::lists(entries@, held),
            excluded(exclude_service) != Some(config.name@) ==> forall|j: int|
                0 <= j < i ==> (#[trigger] entries@[j]).1.config.name@ != config.name@,
        decreases entries@.len() - i,
    {
        if entries[i].1.config.name == config.name {
            let updating: bool = match exclude_service {
                Some(e) => text::same(e, config.name.as_str()),
                None => false,
            };
            if !updating {
                assert(held.contains_key(entries@[i as int].0@));
                return Err(ConfigValidationError::DuplicateServiceName(config.name.clone()));
            }
        }
        i = i + 1;
    }
    proof {
        if excluded(exclude_service) != Some(config.name@) {
            assert forall|k: Seq<char>| #[trigger] held.contains_key(k) implies held[k].config.name@ != config.name@ by {
                let j = choose|j: int| 0 <= j < entries@.len() && (#[trigger] entries@[j]).0@ == k;
                assert(entries@[j].1.config.name@ != config.name@);
            }
        }
    }
    Ok(())
}

/// An earlier container has the name of the `i`-th.
pub open spec fn name_taken(containers: Seq<Container>, i: int) -> bool {
    exists|j: int| 0 <= j < i && (#[trigger] containers[j]).name@ == containers[i].name@
}

/// The `i`-th container has a name of its own, and a valid one.
pub open spec fn well_named(containers: Seq<Container>, i: int) -> bool {
    !name_taken(containers, i) && pattern::dns_label(containers[i].name@)
}

/// Refuses a definition in which two containers share a name or a name is no DNS
/// label, on account of the first container with either fault.
pub fn check_container_name_uniqueness(config: &ServiceConfig) -> (r: Result<(), ConfigValidationError>)
    ensures
        ({
            let c = config.spec.containers@;
            match r {
                Ok(_) => forall|i: int| 0 <= i < c.len() ==> #[trigger] well_named(c, i),
                Err(e) => exists|i: int|
                    #![trigger well_named(c, i)]
                    {
                        &&& 0 <= i < c.len()
                        &&& !well_named(c, i)
                        &&& forall|k: int| 0 <= k < i ==> #[trigger] well_named(c, k)
                        &&& e@ == (if name_taken(c, i) {
                            NameProblem::DuplicateContainerName(c[i].name@, config.name@)
                        } else {
                            NameProblem::InvalidContainerName(c[i].name@, container_name_rule())
                        })
                    },
            }
        }),
{
    let containers: &Vec<Container> = &config.spec.containers;
    let mut i: usize = 0;
    while i < containers.len()
        invariant
            i <= containers@.len(),
            containers@ == config.spec.containers@,
            forall|k: int| 0 <= k < i ==> #[trigger] well_named(containers@, k),
        decreases containers@.len() - i,
    {
        let mut j: usize = 0;
        while j < i
            invariant
                j <= i,
                i < containers@.len(),
                containers@ == config.spec.containers@,
                forall|k: int| 0 <= k < j ==> (#[trigger] containers@[k]).name@ != containers@[i as int].name@,
                forall|k: int| 0 <= k < i ==> #[trigger] well_named(containers@, k),
            decreases i - j,
        {
            if containers[j].name == containers[i].name {
                assert(name_taken(containers@, i as int));
                assert(!well_named(containers@, i as int));
                return Err(
                    ConfigValidationError::DuplicateContainerName(containers[i].name.clone(), config.name.clone()),
                );
            }
            j = j + 1;
        }
        match validate_container_name(containers[i].name.as_str()) {
            Ok(_) => {},
            Err(e) => {
                assert(!well_named(containers@, i as int));
                return Err(e);
            },
        }
        assert(well_named(containers@, i as int));
        i = i + 1;
    }
    Ok(())
}

/// In a definition whose ports were accepted, no two claims are for one port.
pub proof fn accepted_ports_are_distinct(c: Seq<PortClaim>, i: int, j: int)
    requires
        forall|k: int| !repeats(c, k),
        0 <= i < c.len(),
        0 <= j < c.len(),
        i != j,
    ensures
        c[i].port != c[j].port,
{
    let (a, b) = if i < j { (i, j) } else { (j, i) };
    assert(!repeats(c, b));
    if c[a].port == c[b].port {
        assert(repeats(c, b));
    }
}

/// Whether two services clash does not depend on which of them came first.
pub proof fn clashes_are_mutual(ours: Seq<PortClaim>, theirs: Seq<PortClaim>)
    ensures
        disjoint(ours, theirs) == disjoint(theirs, ours),
{
    if disjoint(ours, theirs) && !disjoint(theirs, ours) {
        let k = choose|k: int| 0 <= k < ours.len() && claimed(theirs, (#[trigger] ours[k]).port);
        let j = choose|j: int| 0 <= j < theirs.len() && (#[trigger] theirs[j]).port == ours[k].port;
        assert(claimed(ours, theirs[j].port));
    }
    if disjoint(theirs, ours) && !disjoint(ours, theirs) {
        let k = choose|k: int| 0 <= k < theirs.len() && claimed(ours, (#[trigger] theirs[k]).port);
        let j = choose|j: int| 0 <= j < ours.len() && (#[trigger] ours[j]).port == theirs[k].port;
        assert(claimed(theirs, ours[j].port));
    }
}

/// A valid name holds no separator, so names of containers made from valid names
/// come apart again.
pub proof fn valid_names_are_separable(s: Seq<char>)
    requires
        pattern::dns_label(s),
    ensures
        crate::config::utils::separable(s),
{
    reveal_strlit("__");
    assert forall|j: int| !text::occurs_at(s, "__"@, j) by {
        if text::occurs_at(s, "__"@, j) {
            assert(s.subrange(j, j + 2)[0] == '_');
            assert(s[j] == '_');
        }
    }
    assert(s.last() == s[s.len() - 1]);
}

/// The claims of two lists of containers, one after the other, are those of each.
proof fn lemma_claims_join(a: Seq<Container>, b: Seq<Container>)
    ensures
        claims(a + b) == claims(a) + claims(b),
    decreases b.len(),
{
    if b.len() == 0 {
        assert(a + b =~= a);
        assert(claims(a) + claims(b) =~= claims(a));
    } else {
        assert((a + b).drop_last() =~= a + b.drop_last());
        assert((a + b).last() == b.last());
        lemma_claims_join(a, b.drop_last());
        assert(claims(a + b) =~= claims(a) + claims(b));
    }
}

/// The claims of two lists of ports, one after the other, are those of each.
proof fn lemma_list_claims_join(a: Seq<ContainerPort>, b: Seq<ContainerPort>)
    ensures
        list_claims(a + b) == list_claims(a) + list_claims(b),
    decreases b.len(),
{
    if b.len() == 0 {
        assert(a + b =~= a);
        assert(list_claims(a) + list_claims(b) =~= list_claims(a));
    } else {
        assert((a + b).drop_last() =~= a + b.drop_last());
        assert((a + b).last() == b.last());
        lemma_list_claims_join(a, b.drop_last());
        assert(list_claims(a + b) =~= list_claims(a) + list_claims(b));
    }
}

/// The port is the target port or the node port of the entry.
pub open spec fn wants(p: ContainerPort, port: u16) -> bool {
    p.target_port == Some(port) || p.node_port == Some(port)
}

/// A port that some entry of a list wants is claimed by the list.
proof fn lemma_list_claimed(ports: Seq<ContainerPort>, j: int, port: u16)
    requires
        0 <= j < ports.len(),
        wants(ports[j], port),
    ensures
        claimed(list_claims(ports), port),
{
    let p = ports[j];
    assert(ports =~= ports.take(j) + (seq![p] + ports.skip(j + 1)));
    lemma_list_claims_join(ports.take(j), seq![p] + ports.skip(j + 1));
    lemma_list_claims_join(seq![p], ports.skip(j + 1));
    assert(seq![p].drop_last() =~= Seq::empty());
    assert(list_claims(seq![p]) =~= entry_claims(p)) by {
        assert(list_claims(Seq::<ContainerPort>::empty()) =~= Seq::empty());
    }
    let own = entry_claims(p);
    let k = if p.target_port == Some(port) {
        0int
    } else {
        own.len() - 1
    };
    assert(own[k].port == port);
    let at = list_claims(ports.take(j)).len() + k;
    assert(list_claims(ports)[at] == own[k]);
}

/// The port is wanted by some entry of the container.
pub open spec fn container_wants(c: Container, j: int, port: u16) -> bool {
    c.ports matches Some(list) && 0 <= j < list@.len() && wants(list@[j], port)
}

/// Every target port and every node port of every port entry of every container is
/// among the claims of the definition.
pub proof fn every_port_is_claimed(containers: Seq<Container>, i: int, j: int, port: u16)
    requires
        0 <= i < containers.len(),
        container_wants(containers[i], j, port),
    ensures
        claimed(claims(containers), port),
{
    let c = containers[i];
    lemma_split_claims(containers, i);
    lemma_list_claimed(c.ports->0@, j, port);
    let own = container_claims(c);
    let k = choose|k: int| 0 <= k < own.len() && (#[trigger] own[k]).port == port;
    let at = claims(containers.take(i)).len() + k;
    assert(claims(containers)[at] == own[k]);
}

/// The claims of a definition are those before a container, of it, and after it.
proof fn lemma_split_claims(containers: Seq<Container>, i: int)
    requires
        0 <= i < containers.len(),
    ensures
        claims(containers) == claims(containers.take(i)) + container_claims(containers[i]) + claims(
            containers.skip(i + 1),
        ),
{
    let c = containers[i];
    assert(containers =~= containers.take(i) + (seq![c] + containers.skip(i + 1)));
    lemma_claims_join(containers.take(i), seq![c] + containers.skip(i + 1));
    lemma_claims_join(seq![c], containers.skip(i + 1));
    assert(seq![c].drop_last() =~= Seq::empty());
    assert(claims(Seq::<Container>::empty()) =~= Seq::empty());
    assert(claims(seq![c]) =~= container_claims(c));
    assert(claims(containers) =~= claims(containers.take(i)) + container_claims(c) + claims(containers.skip(i + 1)));
}

/// The claim is that of some entry of a list: a node port for the entry that has
/// it as such, a target port likewise.
pub open spec fn claim_of(ports: Seq<ContainerPort>, claim: PortClaim) -> bool {
    exists|j: int|
        0 <= j < ports.len() && (if claim.node {
            (#[trigger] ports[j]).node_port == Some(claim.port)
        } else {
            ports[j].target_port == Some(claim.port)
        })
}

proof fn lemma_list_claims_are_wanted(ports: Seq<ContainerPort>, k: int)
    requires
        0 <= k < list_claims(ports).len(),
    ensures
        claim_of(ports, list_claims(ports)[k]),
    decreases ports.len(),
{
    let rest = ports.drop_last();
    let before = list_claims(rest);
    if k < before.len() {
        lemma_list_claims_are_wanted(rest, k);
        let claim = before[k];
        let j = choose|j: int|
            0 <= j < rest.len() && (if claim.node {
                (#[trigger] rest[j]).node_port == Some(claim.port)
            } else {
                rest[j].target_port == Some(claim.port)
            });
        assert(ports[j] == rest[j]);
    } else {
        let p = ports[ports.len() - 1];
        assert(list_claims(ports)[k] == entry_claims(p)[k - before.len()]);
    }
}

/// Nothing is claimed that no entry asks for: a claim of a node port comes from an
/// entry with that node port, and a claim of a target port from one with that
/// target port.
pub proof fn only_ports_of_entries_are_claimed(containers: Seq<Container>, k: int) -> (i: int)
    requires
        0 <= k < claims(containers).len(),
    ensures
        0 <= i < containers.len(),
        containers[i].ports matches Some(list) && claim_of(list@, claims(containers)[k]),
    decreases containers.len(),
{
    let rest = containers.drop_last();
    let before = claims(rest);
    if k < before.len() {
        let i = only_ports_of_entries_are_claimed(rest, k);
        assert(containers[i] == rest[i]);
        i
    } else {
        let c = containers[containers.len() - 1];
        lemma_list_claims_are_wanted(c.ports->0@, k - before.len());
        containers.len() - 1
    }
}

/// Two definitions that are accepted together share no port: no target or node
/// port of one is a target or node port of the other.
pub proof fn accepted_definitions_share_no_port(
    a: Seq<Container>,
    b: Seq<Container>,
    i: int,
    j: int,
    k: int,
    l: int,
    port: u16,
)
    requires
        disjoint(claims(a), claims(b)),
        0 <= i < a.len(),
        0 <= k < b.len(),
        container_wants(a[i], j, port),
    ensures
        !container_wants(b[k], l, port),
{
    if container_wants(b[k], l, port) {
        every_port_is_claimed(a, i, j, port);
        every_port_is_claimed(b, k, l, port);
        let theirs = claims(b);
        let at = choose|at: int| 0 <= at < theirs.len() && (#[trigger] theirs[at]).port == port;
        assert(claimed(claims(a), theirs[at].port));
    }
}

/// Definitions that share no port do not clash.
pub proof fn definitions_without_a_shared_port_are_accepted(a: Seq<Container>, b: Seq<Container>)
    requires
        forall|i: int, j: int, k: int, l: int, port: u16|
            0 <= i < a.len() && 0 <= k < b.len() && #[trigger] container_wants(a[i], j, port)
                ==> !#[trigger] container_wants(b[k], l, port),
    ensures
        disjoint(claims(a), claims(b)),
{
    let (ours, theirs) = (claims(a), claims(b));
    assert forall|at: int| 0 <= at < theirs.len() implies !claimed(ours, (#[trigger] theirs[at]).port) by {
        if claimed(ours, theirs[at].port) {
            let port = theirs[at].port;
            let of = choose|of: int| 0 <= of < ours.len() && (#[trigger] ours[of]).port == port;
            let i = only_ports_of_entries_are_claimed(a, of);
            let k = only_ports_of_entries_are_claimed(b, at);
            let (p, q) = (a[i].ports->0@, b[k].ports->0@);
            let (x, y) = (ours[of], theirs[at]);
            let j = choose|j: int|
                0 <= j < p.len() && (if x.node {
                    (#[trigger] p[j]).node_port == Some(x.port)
                } else {
                    p[j].target_port == Some(x.port)
                });
            let l = choose|l: int|
                0 <= l < q.len() && (if y.node {
                    (#[trigger] q[l]).node_port == Some(y.port)
                } else {
                    q[l].target_port == Some(y.port)
                });
            assert(container_wants(a[i], j, port));
            assert(container_wants(b[k], l, port));
        }
    }
}

/// Where two parts of a list of claims hold the same port, the list repeats it.
proof fn lemma_repeats(a: Seq<PortClaim>, b: Seq<PortClaim>, c: Seq<PortClaim>, d: Seq<PortClaim>, port: u16)
    requires
        claimed(b, port),
        claimed(d, port),
    ensures
        exists|i: int| repeats(a + b + c + d, i),
{
    let all = a + b + c + d;
    let i = choose|i: int| 0 <= i < b.len() && (#[trigger] b[i]).port == port;
    let j = choose|j: int| 0 <= j < d.len() && (#[trigger] d[j]).port == port;
    let x = a.len() + i;
    let y = a.len() + b.len() + c.len() + j;
    assert(all[x] == b[i]);
    assert(all[y] == d[j]);
    assert(repeats(all, y as int));
}

/// In an accepted definition no two port entries want the same port, and no entry
/// wants one twice.
pub proof fn accepted_entries_share_no_port(containers: Seq<Container>, i: int, j: int, k: int, l: int, port: u16)
    requires
        forall|n: int| !repeats(claims(containers), n),
        0 <= i < containers.len(),
        0 <= k < containers.len(),
        container_wants(containers[i], j, port),
        container_wants(containers[k], l, port),
    ensures
        i == k && j == l,
        containers[i].ports->0@[j].target_port != containers[i].ports->0@[j].node_port,
{
    if i != k {
        let (x, y) = if i < k {
            (i, k)
        } else {
            (k, i)
        };
        let (m, n) = if i < k {
            (j, l)
        } else {
            (l, j)
        };
        lemma_split_claims(containers, y);
        let front = containers.take(y);
        lemma_split_claims(front, x);
        assert(front[x] == containers[x]);
        lemma_list_claimed(containers[x].ports->0@, m, port);
        lemma_list_claimed(containers[y].ports->0@, n, port);
        let (a, b, c, d) = (
            claims(front.take(x)),
            container_claims(containers[x]),
            claims(front.skip(x + 1)),
            container_claims(containers[y]),
        );
        lemma_repeats(a, b, c, d, port);
        lemma_more_repeats(Seq::empty(), a + b + c + d, claims(containers.skip(y + 1)));
        assert(Seq::<PortClaim>::empty() + (a + b + c + d) + claims(containers.skip(y + 1)) =~= claims(containers));
    } else {
        let list = containers[i].ports->0@;
        lemma_split_claims(containers, i);
        let (before, after) = (claims(containers.take(i)), claims(containers.skip(i + 1)));
        if j != l {
            let (x, y) = if j < l {
                (j, l)
            } else {
                (l, j)
            };
            let (one, two) = (list.take(y), list.skip(y));
            assert(list =~= one + two);
            lemma_list_claims_join(one, two);
            assert(one[x] == list[x]);
            assert(two[0] == list[y]);
            lemma_list_claimed(one, x, port);
            lemma_list_claimed(two, 0, port);
            lemma_repeats(Seq::empty(), list_claims(one), Seq::empty(), list_claims(two), port);
            let all = Seq::<PortClaim>::empty() + list_claims(one) + Seq::<PortClaim>::empty() + list_claims(two);
            assert(all =~= list_claims(list));
            lemma_more_repeats(before, list_claims(list), after);
        }
        let p = list[j];
        if p.target_port == p.node_port {
            let (one, two) = (list.take(j), list.skip(j + 1));
            assert(list =~= one + (seq![p] + two));
            lemma_list_claims_join(one, seq![p] + two);
            lemma_list_claims_join(seq![p], two);
            assert(seq![p].drop_last() =~= Seq::empty());
            assert(list_claims(Seq::<ContainerPort>::empty()) =~= Seq::empty());
            assert(list_claims(seq![p]) =~= entry_claims(p));
            let own = entry_claims(p);
            assert(own[0].port == own[1].port);
            assert(repeats(own, 1));
            lemma_more_repeats(list_claims(one), own, list_claims(two));
            assert(list_claims(one) + own + list_claims(two) =~= list_claims(list));
            lemma_more_repeats(before, list_claims(list), after);
        }
    }
}

/// What a part repeats, the whole repeats.
proof fn lemma_more_repeats(a: Seq<PortClaim>, b: Seq<PortClaim>, c: Seq<PortClaim>)
    requires
        exists|i: int| repeats(b, i),
    ensures
        exists|i: int| repeats(a + b + c, i),
{
    let all = a + b + c;
    let i = choose|i: int| repeats(b, i);
    let j = choose|j: int| 0 <= j < i && (#[trigger] b[j]).port == b[i].port;
    assert(all[a.len() + i] == b[i]);
    assert(all[a.len() + j] == b[j]);
    assert(repeats(all, a.len() + i));
}

/// A definition is held against every other service that is not left out, and
/// against no others.
pub proof fn every_other_service_is_a_rival(
    m: Map<Seq<char>, Arc<StoredConfig>>,
    k: Seq<char>,
    name: Seq<char>,
    exclude: Option<Seq<char>>,
)
    ensures
        !m.contains_key(k) ==> !rival(m, k, name, exclude),
        m.contains_key(k) && m[k].config.name@ == name ==> !rival(m, k, name, exclude),
        m.contains_key(k) && exclude == Some(m[k].config.name@) ==> !rival(m, k, name, exclude),
        m.contains_key(k) && m[k].config.name@ != name && exclude is None ==> rival(m, k, name, exclude),
        m.contains_key(k) && m[k].config.name@ != name && exclude != Some(m[k].config.name@) ==> rival(
            m,
            k,
            name,
            exclude,
        ),
{
}

/// Where every container is well named, no two have the same name, and each name is
/// a label: 1 to 63 lower-case letters, digits and hyphens, with no hyphen at either
/// end. Where names are such, every container is well named.
pub proof fn well_named_containers_have_names_of_their_own(containers: Seq<Container>)
    ensures
        (forall|i: int| 0 <= i < containers.len() ==> #[trigger] well_named(containers, i)) <==> {
            &&& forall|i: int, j: int|
                0 <= i < j < containers.len() ==> (#[trigger] containers[i]).name@ != (#[trigger] containers[j]).name@
            &&& forall|i: int| 0 <= i < containers.len() ==> is_label((#[trigger] containers[i]).name@)
        },
{
    if forall|i: int| 0 <= i < containers.len() ==> #[trigger] well_named(containers, i) {
        assert forall|i: int, j: int| 0 <= i < j < containers.len() implies (#[trigger] containers[i]).name@ != (
        #[trigger] containers[j]).name@ by {
            assert(well_named(containers, j));
        }
        assert forall|i: int| 0 <= i < containers.len() implies is_label((#[trigger] containers[i]).name@) by {
            assert(well_named(containers, i));
            names_are_labels(containers[i].name@);
        }
    }
    if forall|i: int, j: int|
        0 <= i < j < containers.len() ==> (#[trigger] containers[i]).name@ != (#[trigger] containers[j]).name@ {
        if forall|i: int| 0 <= i < containers.len() ==> is_label((#[trigger] containers[i]).name@) {
            assert forall|i: int| 0 <= i < containers.len() implies #[trigger] well_named(containers, i) by {
                assert(is_label(containers[i].name@));
                names_are_labels(containers[i].name@);
            }
        }
    }
}

/// A label: 1 to 63 lower-case letters, digits and hyphens, with no hyphen at
/// either end.
pub open spec fn is_label(s: Seq<char>) -> bool {
    &&& 0 < s.len() < 64
    &&& forall|i: int|
        0 <= i < s.len() ==> {
            ||| 'a' <= #[trigger] s[i] <= 'z'
            ||| '0' <= s[i] <= '9'
            ||| s[i] == '-' && 0 < i < s.len() - 1
        }
}

/// The names that are accepted are the labels.
pub proof fn names_are_labels(s: Seq<char>)
    ensures
        pattern::dns_label(s) == is_label(s),
{
    if is_label(s) {
        assert('a' <= s[0] <= 'z' || '0' <= s[0] <= '9');
        let n = s.len() - 1;
        assert('a' <= s[n] <= 'z' || '0' <= s[n] <= '9');
        assert(pattern::lower_alphanumeric(s.last()));
    }
    if pattern::dns_label(s) {
        assert forall|i: int| 0 <= i < s.len() implies {
            ||| 'a' <= #[trigger] s[i] <= 'z'
            ||| '0' <= s[i] <= '9'
            ||| s[i] == '-' && 0 < i < s.len() - 1
        } by {
            assert(pattern::lower_alphanumeric(s[i]) || s[i] == '-');
        }
    }
}

/// A claim is named after its kind.
pub proof fn claims_are_named_after_their_kind(c: PortClaim)
    ensures
        claim_word(c) == "node"@ <==> c.node,
        claim_word(c) == "target"@ <==> !c.node,
{
    reveal_strlit("node");
    reveal_strlit("target");
    assert("node"@.len() == 4 && "target"@.len() == 6);
}

/// A service of that name is defined, and is not the one that is left out.
pub open spec fn name_in_use(
    m: Map<Seq<char>, Arc<StoredConfig>>,
    name: Seq<char>,
    exclude: Option<Seq<char>>,
) -> bool {
    exclude != Some(name) && exists|k: Seq<char>| #[trigger] m.contains_key(k) && m[k].config.name@ == name
}

/// A name is refused exactly where some definition has it, unless it is that of the service
/// which is changed; another service that is left out makes no difference.
pub proof fn names_are_taken_once(
    m: Map<Seq<char>, Arc<StoredConfig>>,
    k: Seq<char>,
    name: Seq<char>,
    exclude: Option<Seq<char>>,
)
    ensures
        m.contains_key(k) && m[k].config.name@ == name && exclude != Some(name) ==> name_in_use(m, name, exclude),
        exclude == Some(name) ==> !name_in_use(m, name, exclude),
        (forall|p: Seq<char>| #[trigger] m.contains_key(p) ==> m[p].config.name@ != name) ==> !name_in_use(
            m,
            name,
            exclude,
        ),
{
}

/// The clash that is told is the first of the other definition: its port is wanted here, and
/// none of the claims before it is. There is one exactly where the definitions share a port.
pub proof fn the_first_clash_is_told(ours: Seq<PortClaim>, theirs: Seq<PortClaim>, i: int, j: int, k: int)
    requires
        first_clash(ours, theirs, i),
        0 <= j < ours.len(),
        0 <= k < i,
    ensures
        i < theirs.len(),
        theirs[k].port != ours[j].port,
        exists|n: int| 0 <= n < ours.len() && (#[trigger] ours[n]).port == theirs[i].port,
        !disjoint(ours, theirs),
{
    assert(!claimed(ours, theirs[k].port));
    assert(claimed(ours, theirs[i].port));
}

} // verus!
