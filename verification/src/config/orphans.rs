//! Containers that were left running by an earlier run.

use crate::config::utils;
use crate::config::utils::ContainerNameParts;
use crate::config::ServiceConfig;
use crate::container::lifecycle;
use crate::container::scaling;
use crate::container::stats;
use crate::container::ContainerFacts;
use crate::container::ContainerInfo;
use crate::container::ContainerMetadata;
use crate::container::ContainerPort;
use crate::container::ContainerPortMetadata;
use crate::container::ContainerStats;
use crate::container::InstanceMetadata;
use crate::container::InstanceStore;
use crate::proxy;
use crate::stores;
use std::collections::HashMap;
use vstd::prelude::*;
use vstd::string::*;

verus! {

/// The containers of one pod that was left running.
#[derive(Debug)]
pub struct OrphanPod {
    pub uuid: u128,
    pub containers: Vec<String>,
}

/// What to do about containers that were left running.
#[derive(Debug)]
pub enum OrphanPlan {
    /// There are none.
    Nothing,
    /// Stop these.
    StopAll(Vec<String>),
    /// Stop those of incomplete pods, and take over the complete pods.
    Adopt { stop: Vec<String>, pods: Vec<OrphanPod> },
}

/// The UUID of the pod that a listed container belongs to, by its name.
pub open spec fn orphan_uuid(c: ContainerInfo) -> Option<u128> {
    match utils::parsed_name(c.name@) {
        Ok(p) => Some(p.uuid),
        Err(_) => None,
    }
}

/// The names of the listed containers of a pod, in order.
pub open spec fn names_with(listed: Seq<ContainerInfo>, uuid: u128) -> Seq<Seq<char>>
    decreases listed.len(),
{
    if listed.len() == 0 {
        Seq::empty()
    } else {
        let rest = names_with(listed.drop_last(), uuid);
        if orphan_uuid(listed.last()) == Some(uuid) {
            rest.push(listed.last().name@)
        } else {
            rest
        }
    }
}

/// Some listed container belongs to the pod.
pub open spec fn present(listed: Seq<ContainerInfo>, uuid: u128) -> bool {
    exists|i: int| 0 <= i < listed.len() && orphan_uuid(#[trigger] listed[i]) == Some(uuid)
}

/// The names of the containers of some pods, pod by pod.
pub open spec fn all_names(listed: Seq<ContainerInfo>, uuids: Seq<u128>) -> Seq<Seq<char>>
    decreases uuids.len(),
{
    if uuids.len() == 0 {
        Seq::empty()
    } else {
        all_names(listed, uuids.drop_last()) + names_with(listed, uuids.last())
    }
}

/// The pod has as many listed containers as it should.
pub open spec fn complete(listed: Seq<ContainerInfo>, uuid: u128, required: nat) -> bool {
    names_with(listed, uuid).len() == required
}

/// `uuids` lists the present pods that are incomplete, each once.
pub open spec fn incomplete_pods(listed: Seq<ContainerInfo>, required: nat, uuids: Seq<u128>) -> bool {
    &&& uuids.no_duplicates()
    &&& forall|u: u128| uuids.contains(u) == (present(listed, u) && !#[trigger] complete(listed, u, required))
}

/// `pods` holds the present pods that are complete, each once, with all their
/// containers.
pub open spec fn complete_pods(listed: Seq<ContainerInfo>, required: nat, pods: Seq<OrphanPod>) -> bool {
    &&& forall|i: int, j: int| 0 <= i < j < pods.len() ==> (#[trigger] pods[i]).uuid != (#[trigger] pods[j]).uuid
    &&& forall|i: int|
        0 <= i < pods.len() ==> {
            &&& present(listed, (#[trigger] pods[i]).uuid)
            &&& complete(listed, pods[i].uuid, required)
            &&& lifecycle::texts(pods[i].containers@) == names_with(listed, pods[i].uuid)
        }
    &&& forall|u: u128|
        present(listed, u) && #[trigger] complete(listed, u, required) ==> exists|i: int|
            0 <= i < pods.len() && (#[trigger] pods[i]).uuid == u
}

/// The names of all listed containers.
pub open spec fn listed_names(listed: Seq<ContainerInfo>) -> Seq<Seq<char>> {
    listed.map_values(|c: ContainerInfo| c.name@)
}

/// `p` is what to do about the listed containers.
pub open spec fn is_orphan_plan(
    p: OrphanPlan,
    adopt: bool,
    required: nat,
    listed: Seq<ContainerInfo>,
) -> bool {
    if listed.len() == 0 {
        p is Nothing
    } else if !adopt {
        p matches OrphanPlan::StopAll(stop) && lifecycle::texts(stop@) == listed_names(listed)
    } else {
        p matches OrphanPlan::Adopt { stop, pods } && complete_pods(listed, required, pods@) && exists|uuids: Seq<u128>|
            #[trigger] incomplete_pods(listed, required, uuids) && lifecycle::texts(stop@) == all_names(listed, uuids)
    }
}

/// The pods that listed containers belong to, in order of appearance.
fn distinct_pods(listed: &Vec<ContainerInfo>) -> (r: Vec<u128>)
    ensures
        r@.no_duplicates(),
        forall|u: u128| r@.contains(u) == present(listed@, u),
{
    let mut r: Vec<u128> = Vec::new();
    let mut i: usize = 0;
    while i < listed.len()
        invariant
            i <= listed@.len(),
            r@.no_duplicates(),
            forall|u: u128| #[trigger] r@.contains(u) ==> present(listed@, u),
            forall|j: int| 0 <= j < i ==> (orphan_uuid(#[trigger] listed@[j]) matches Some(u) ==> r@.contains(u)),
        decreases listed@.len() - i,
    {
        let ghost before = r@;
        if let Ok(parts) = utils::parse_container_name(listed[i].name.as_str()) {
            assert(orphan_uuid(listed@[i as int]) == Some(parts.uuid));
            let mut seen: bool = false;
            let mut j: usize = 0;
            while j < r.len()
                invariant
                    j <= r@.len(),
                    seen == exists|k: int| 0 <= k < j && r@[k] == parts.uuid,
                decreases r@.len() - j,
            {
                if r[j] == parts.uuid {
                    seen = true;
                    assert(r@[j as int] == parts.uuid);
                }
                j = j + 1;
            }
            if !seen {
                r.push(parts.uuid);
            }
            proof {
                assert(r@.contains(parts.uuid)) by {
                    if seen {
                        let k = choose|k: int| 0 <= k < before.len() && before[k] == parts.uuid;
                        assert(r@[k] == parts.uuid);
                    } else {
                        assert(r@[before.len() as int] == parts.uuid);
                    }
                }
                assert forall|u: u128| before.contains(u) implies r@.contains(u) by {
                    let k = choose|k: int| 0 <= k < before.len() && before[k] == u;
                    assert(r@[k] == u);
                }
                assert forall|u: u128| #[trigger] r@.contains(u) implies present(listed@, u) by {
                    let k = choose|k: int| 0 <= k < r@.len() && r@[k] == u;
                    if k < before.len() {
                        assert(before[k] == u);
                        assert(before.contains(u));
                    }
                }
            }
        }
        i = i + 1;
    }
    proof {
        assert forall|u: u128| r@.contains(u) == present(listed@, u) by {
            if present(listed@, u) {
                let j = choose|j: int| 0 <= j < listed@.len() && orphan_uuid(#[trigger] listed@[j]) == Some(u);
                assert(orphan_uuid(listed@[j]) is Some);
            }
        }
    }
    r
}

/// The names of the listed containers of a pod.
fn collect_names(listed: &Vec<ContainerInfo>, uuid: u128) -> (r: Vec<String>)
    ensures
        lifecycle::texts(r@) == names_with(listed@, uuid),
{
    let mut r: Vec<String> = Vec::new();
    let mut i: usize = 0;
    assert(listed@.take(0) =~= Seq::empty());
    assert(lifecycle::texts(r@) =~= Seq::empty());
    while i < listed.len()
        invariant
            i <= listed@.len(),
            lifecycle::texts(r@) == names_with(listed@.take(i as int), uuid),
        decreases listed@.len() - i,
    {
        let ghost before = r@;
        proof {
            assert(listed@.take(i + 1).drop_last() =~= listed@.take(i as int));
            assert(listed@.take(i + 1).last() == listed@[i as int]);
        }
        if let Ok(parts) = utils::parse_container_name(listed[i].name.as_str()) {
            if parts.uuid == uuid {
                r.push(listed[i].name.clone());
                assert(lifecycle::texts(r@) =~= lifecycle::texts(before).push(listed@[i as int].name@));
            }
        }
        i = i + 1;
    }
    assert(listed@.take(i as int) =~= listed@);
    r
}

/// What to do about containers that were left running.
pub fn handle_orphans(config: &ServiceConfig, listed: &Vec<ContainerInfo>) -> (r: OrphanPlan)
    ensures
        is_orphan_plan(r, config.adopt_orphans, config.spec.containers@.len(), listed@),
{
    if listed.len() == 0 {
        return OrphanPlan::Nothing;
    }
    if !config.adopt_orphans {
        let mut stop: Vec<String> = Vec::new();
        let mut i: usize = 0;
        while i < listed.len()
            invariant
                i <= listed@.len(),
                stop@.len() == i,
                forall|j: int| 0 <= j < i ==> (#[trigger] stop@[j])@ == listed@[j].name@,
            decreases listed@.len() - i,
        {
            stop.push(listed[i].name.clone());
            i = i + 1;
        }
        assert(lifecycle::texts(stop@) =~= listed_names(listed@));
        return OrphanPlan::StopAll(stop);
    }
    let required: usize = config.spec.containers.len();
    let uuids: Vec<u128> = distinct_pods(listed);
    let mut stop: Vec<String> = Vec::new();
    let mut pods: Vec<OrphanPod> = Vec::new();
    let ghost mut bad: Seq<u128> = Seq::empty();
    let mut i: usize = 0;
    assert(lifecycle::texts(stop@) =~= all_names(listed@, bad));
    while i < uuids.len()
        invariant
            i <= uuids@.len(),
            required == config.spec.containers@.len(),
            uuids@.no_duplicates(),
            forall|u: u128| uuids@.contains(u) == present(listed@, u),
            bad.no_duplicates(),
            forall|u: u128| #[trigger] bad.contains(u) ==> uuids@.take(i as int).contains(u) && !complete(
                listed@,
                u,
                required as nat,
            ),
            lifecycle::texts(stop@) == all_names(listed@, bad),
            forall|a: int, b: int| 0 <= a < b < pods@.len() ==> (#[trigger] pods@[a]).uuid != (#[trigger] pods@[b]).uuid,
            forall|j: int|
                0 <= j < pods@.len() ==> {
                    &&& uuids@.take(i as int).contains((#[trigger] pods@[j]).uuid)
                    &&& present(listed@, pods@[j].uuid)
                    &&& complete(listed@, pods@[j].uuid, required as nat)
                    &&& lifecycle::texts(pods@[j].containers@) == names_with(listed@, pods@[j].uuid)
                },
            forall|j: int|
                0 <= j < i ==> (if complete(listed@, #[trigger] uuids@[j], required as nat) {
                    exists|k: int| 0 <= k < pods@.len() && (#[trigger] pods@[k]).uuid == uuids@[j]
                } else {
                    bad.contains(uuids@[j])
                }),
        decreases uuids@.len() - i,
    {
        let uuid: u128 = uuids[i];
        let ghost old_bad = bad;
        let ghost old_pods = pods@;
        let ghost old_stop = lifecycle::texts(stop@);
        proof {
            assert(uuids@.contains(uuid)) by {
                assert(uuids@[i as int] == uuid);
            }
            assert(!uuids@.take(i as int).contains(uuid)) by {
                if uuids@.take(i as int).contains(uuid) {
                    let j = choose|j: int| 0 <= j < i && uuids@[j] == uuid;
                    assert(uuids@[j] == uuids@[i as int]);
                }
            }
            let (a, b) = (uuids@.take(i as int), uuids@.take(i + 1));
            assert(b[i as int] == uuid);
            assert forall|u: u128| a.contains(u) implies b.contains(u) by {
                let j = choose|j: int| 0 <= j < a.len() && a[j] == u;
                assert(b[j] == u);
            }
            assert(b.contains(uuid));
        }
        let mut names: Vec<String> = collect_names(listed, uuid);
        let ghost texts = lifecycle::texts(names@);
        if names.len() == required {
            pods.push(OrphanPod { uuid, containers: names });
            proof {
                assert(complete(listed@, uuid, required as nat));
                assert(pods@[old_pods.len() as int].uuid == uuid);
            }
        } else {
            stop.append(&mut names);
            proof {
                bad = bad.push(uuid);
                assert(lifecycle::texts(stop@) =~= old_stop + texts);
                assert(bad.drop_last() =~= old_bad);
                assert(bad[old_bad.len() as int] == uuid);
                assert(!complete(listed@, uuid, required as nat));
                assert(bad.no_duplicates()) by {
                    assert(!old_bad.contains(uuid));
                    assert forall|a: int, b: int| 0 <= a < bad.len() && 0 <= b < bad.len() && a != b implies bad[a]
                        != bad[b] by {
                        if a < old_bad.len() && b < old_bad.len() {
                            assert(old_bad[a] != old_bad[b]);
                        } else if a < old_bad.len() {
                            assert(old_bad.contains(old_bad[a]));
                        } else {
                            assert(old_bad.contains(old_bad[b]));
                        }
                    }
                }
                assert forall|u: u128| #[trigger] bad.contains(u) implies uuids@.take(i + 1).contains(u) && !complete(
                    listed@,
                    u,
                    required as nat,
                ) by {
                    let j = choose|j: int| 0 <= j < bad.len() && bad[j] == u;
                    if j < old_bad.len() {
                        assert(old_bad[j] == u);
                        assert(old_bad.contains(u));
                    }
                }
            }
        }
        proof {
            assert forall|j: int| 0 <= j < i + 1 implies (if complete(listed@, #[trigger] uuids@[j], required as nat) {
                exists|k: int| 0 <= k < pods@.len() && (#[trigger] pods@[k]).uuid == uuids@[j]
            } else {
                bad.contains(uuids@[j])
            }) by {
                if j < i {
                    if complete(listed@, uuids@[j], required as nat) {
                        let k = choose|k: int| 0 <= k < old_pods.len() && (#[trigger] old_pods[k]).uuid == uuids@[j];
                        assert(pods@[k] == old_pods[k]);
                    } else {
                        assert(old_bad.contains(uuids@[j]));
                        let k = choose|k: int| 0 <= k < old_bad.len() && old_bad[k] == uuids@[j];
                        assert(bad[k] == uuids@[j]);
                    }
                } else {
                    if complete(listed@, uuid, required as nat) {
                        assert(pods@[old_pods.len() as int].uuid == uuids@[j]);
                    } else {
                        assert(bad[old_bad.len() as int] == uuids@[j]);
                    }
                }
            }
        }
        i = i + 1;
    }
    proof {
        assert(uuids@.take(i as int) =~= uuids@);
        assert forall|u: u128| bad.contains(u) == (present(listed@, u) && !#[trigger] complete(
            listed@,
            u,
            required as nat,
        )) by {
            if present(listed@, u) && !complete(listed@, u, required as nat) {
                assert(uuids@.contains(u));
                let j = choose|j: int| 0 <= j < uuids@.len() && uuids@[j] == u;
                assert(bad.contains(uuids@[j]));
            }
        }
        assert(incomplete_pods(listed@, required as nat, bad));
        assert forall|u: u128| present(listed@, u) && #[trigger] complete(listed@, u, required as nat) implies exists|
            k: int,
        |
            0 <= k < pods@.len() && (#[trigger] pods@[k]).uuid == u by {
            assert(uuids@.contains(u));
            let j = choose|j: int| 0 <= j < uuids@.len() && uuids@[j] == u;
            assert(complete(listed@, uuids@[j], required as nat));
        }
        assert(complete_pods(listed@, required as nat, pods@));
    }
    OrphanPlan::Adopt { stop, pods }
}

/// The ports to look for in a container that is to be taken over; nothing where
/// the name, the service or the container is unknown, or has no ports.
pub fn orphan_ports<'a>(parts: &ContainerNameParts, config: &'a ServiceConfig) -> (r: Option<&'a Vec<ContainerPort>>)
    ensures
        match r {
            Some(p) => exists|i: int| #[trigger]
                scaling::defined_at(config.spec.containers@, parts.container_name@, i)
                    && config.spec.containers@[i].ports == Some(*p),
            None => forall|i: int| #[trigger]
                scaling::defined_at(config.spec.containers@, parts.container_name@, i)
                    ==> config.spec.containers@[i].ports is None,
        },
{
    match scaling::find_container(&config.spec.containers, parts.container_name.as_str()) {
        Some(c) => {
            proof {
                let i = choose|i: int| #[trigger]
                    scaling::defined_at(config.spec.containers@, parts.container_name@, i)
                        && config.spec.containers@[i] == *c;
                assert forall|k: int| #[trigger]
                    scaling::defined_at(config.spec.containers@, parts.container_name@, k) implies k == i by {
                    if k < i {
                        assert(config.spec.containers@[k].name@ != parts.container_name@);
                    } else if i < k {
                        assert(config.spec.containers@[i].name@ != parts.container_name@);
                    }
                }
            }
            match &c.ports {
                Some(p) => Some(p),
                None => None,
            }
        },
        None => None,
    }
}

/// What is kept about a port of a container that is taken over: the host port
/// that the container port is mapped to.
pub open spec fn adopted_port(p: ContainerPort, mappings: Map<u16, u16>) -> Option<ContainerPortMetadata> {
    if mappings.contains_key(p.port) {
        Some(
            ContainerPortMetadata {
                port: mappings[p.port],
                target_port: None,
                node_port: Some(
                    match p.node_port {
                        Some(n) => n,
                        None => p.port,
                    },
                ),
            },
        )
    } else {
        None
    }
}

/// What is kept about the ports of a container that is taken over, in order.
pub open spec fn adopted_ports(ports: Seq<ContainerPort>, mappings: Map<u16, u16>) -> Seq<ContainerPortMetadata>
    decreases ports.len(),
{
    if ports.len() == 0 {
        Seq::empty()
    } else {
        let rest = adopted_ports(ports.drop_last(), mappings);
        match adopted_port(ports.last(), mappings) {
            Some(m) => rest.push(m),
            None => rest,
        }
    }
}

/// The record of a container that is taken over; nothing where none of its ports
/// is mapped. Its network and address are left empty.
pub fn adopted_container(name: &str, ports: &Vec<ContainerPort>, stats: &ContainerStats) -> (r: Option<ContainerMetadata>)
    ensures
        ({
            let kept = adopted_ports(ports@, stats.port_mappings@);
            &&& r is Some == (kept.len() > 0)
            &&& r matches Some(c) ==> c@ == (ContainerFacts {
                name: name@,
                network: Seq::empty(),
                ip_address: Seq::empty(),
                ports: kept,
                status: "adopted"@,
            })
        }),
{
    let mut kept: Vec<ContainerPortMetadata> = Vec::new();
    let mut i: usize = 0;
    assert(ports@.take(0) =~= Seq::empty());
    while i < ports.len()
        invariant
            i <= ports@.len(),
            kept@ == adopted_ports(ports@.take(i as int), stats.port_mappings@),
        decreases ports@.len() - i,
    {
        let p: ContainerPort = ports[i];
        proof {
            assert(ports@.take(i + 1).drop_last() =~= ports@.take(i as int));
            assert(ports@.take(i + 1).last() == p);
        }
        if let Some(host_port) = stats::find_host_port(stats, p.port) {
            let node_port: u16 = match p.node_port {
                Some(n) => n,
                None => p.port,
            };
            kept.push(ContainerPortMetadata { port: host_port, target_port: None, node_port: Some(node_port) });
        }
        i = i + 1;
    }
    assert(ports@.take(i as int) =~= ports@);
    if kept.len() == 0 {
        return None;
    }
    Some(
        ContainerMetadata {
            name: name.to_owned(),
            network: String::new(),
            ip_address: String::new(),
            ports: kept,
            status: "adopted".to_owned(),
        },
    )
}

/// Puts a service on record whose complete pods are taken over, though there may
/// be none. Its pods stay as they are.
pub fn open_record(instance_store: &mut InstanceStore, service_name: &str)
    ensures
        stores::entries(*final(instance_store)).contains_key(service_name@),
        lifecycle::only_pods_changed(
            stores::entries(*old(instance_store)),
            stores::entries(*final(instance_store)),
            service_name@,
            proxy::pods_of(stores::entries(*old(instance_store)), service_name@),
        ),
{
    if stores::map_get(instance_store, service_name).is_none() {
        let none: HashMap<u128, InstanceMetadata> = HashMap::new();
        let _ = stores::map_insert(instance_store, service_name.to_owned(), none);
    }
}

/// Puts a pod that is taken over on record, unless nothing of it could be. Its
/// service goes on record in any case.
pub fn adopt_pod(
    instance_store: &mut InstanceStore,
    service_name: &str,
    uuid: u128,
    now: u128,
    containers: Vec<ContainerMetadata>,
)
    ensures
        ({
            let before = stores::entries(*old(instance_store));
            let after = stores::entries(*final(instance_store));
            let pods = proxy::pods_of(before, service_name@);
            &&& after.contains_key(service_name@)
            &&& containers@.len() == 0 ==> lifecycle::only_pods_changed(before, after, service_name@, pods)
            &&& containers@.len() > 0 ==> exists|m: InstanceMetadata|
                {
                    &&& #[trigger] m@ == (crate::container::InstanceFacts {
                        uuid,
                        created_at: now,
                        network: Seq::empty(),
                        containers: proxy::facts(containers@),
                        image_hash: Map::empty(),
                    })
                    &&& lifecycle::only_pods_changed(before, after, service_name@, pods.insert(uuid, m))
                }
        }),
{
    if containers.len() == 0 {
        open_record(instance_store, service_name);
        return;
    }
    let m: InstanceMetadata = InstanceMetadata {
        uuid,
        created_at: now,
        network: String::new(),
        containers,
        image_hash: stores::map_new(),
    };
    assert(m@.image_hash =~= Map::<Seq<char>, Seq<char>>::empty());
    assert(m@.network =~= Seq::<char>::empty());
    lifecycle::insert_pod(instance_store, service_name, m);
}

/// Whether listed containers are adopted or not, none is forgotten: one whose name
/// can be read belongs to a pod that is complete or incomplete.
pub proof fn every_readable_orphan_is_dealt_with(
    listed: Seq<ContainerInfo>,
    required: nat,
    uuids: Seq<u128>,
    pods: Seq<OrphanPod>,
    i: int,
)
    requires
        incomplete_pods(listed, required, uuids),
        complete_pods(listed, required, pods),
        0 <= i < listed.len(),
        orphan_uuid(listed[i]) is Some,
    ensures
        uuids.contains(orphan_uuid(listed[i])->0) != (exists|k: int|
            0 <= k < pods.len() && (#[trigger] pods[k]).uuid == orphan_uuid(listed[i])->0),
{
    let u = orphan_uuid(listed[i])->0;
    assert(present(listed, u));
    if complete(listed, u, required) {
        assert(!uuids.contains(u));
    } else {
        assert(uuids.contains(u));
        if exists|k: int| 0 <= k < pods.len() && (#[trigger] pods[k]).uuid == u {
            let k = choose|k: int| 0 <= k < pods.len() && (#[trigger] pods[k]).uuid == u;
            assert(complete(listed, pods[k].uuid, required));
        }
    }
}

/// A container that was left running belongs to the pod of the UUID in its name, as far
/// as that can be read; the containers of a pod are listed in their order, each once.
pub proof fn orphans_belong_to_the_pod_in_their_name(
    a: Seq<ContainerInfo>,
    b: Seq<ContainerInfo>,
    c: ContainerInfo,
    uuid: u128,
)
    ensures
        names_with(a + b, uuid) == names_with(a, uuid) + names_with(b, uuid),
        (utils::parsed_name(c.name@) matches Ok(p) && p.uuid == uuid) ==> names_with(seq![c], uuid) == seq![c.name@],
        !(utils::parsed_name(c.name@) matches Ok(p) && p.uuid == uuid) ==> names_with(seq![c], uuid) == Seq::<
            Seq<char>,
        >::empty(),
        names_with(Seq::empty(), uuid) == Seq::<Seq<char>>::empty(),
    decreases b.len(),
{
    assert(names_with(Seq::empty(), uuid) =~= Seq::<Seq<char>>::empty());
    assert(seq![c].drop_last() =~= Seq::empty());
    assert(seq![c].last() == c);
    assert(names_with(seq![c], uuid) =~= (if orphan_uuid(c) == Some(uuid) {
        seq![c.name@]
    } else {
        Seq::empty()
    }));
    if b.len() == 0 {
        assert(a + b =~= a);
        assert(names_with(a, uuid) + names_with(b, uuid) =~= names_with(a, uuid));
    } else {
        assert((a + b).drop_last() =~= a + b.drop_last());
        assert((a + b).last() == b.last());
        orphans_belong_to_the_pod_in_their_name(a, b.drop_last(), c, uuid);
        assert(names_with(a + b, uuid) =~= names_with(a, uuid) + names_with(b, uuid));
    }
}

/// What is done about containers that were left running: nothing where there are none;
/// all are stopped where they are not to be adopted. Otherwise each pod with as many
/// containers as the definition has is taken over with all of them, and every container
/// of the other pods is stopped; a container whose name cannot be read is left alone.
pub proof fn whole_pods_are_taken_over(
    p: OrphanPlan,
    adopt: bool,
    required: nat,
    listed: Seq<ContainerInfo>,
    i: int,
)
    requires
        is_orphan_plan(p, adopt, required, listed),
        0 <= i < listed.len(),
    ensures
        !adopt ==> (p matches OrphanPlan::StopAll(stop) && stop@.len() == listed.len() && stop@[i]@ == listed[i].name@),
        adopt ==> (p matches OrphanPlan::Adopt { stop, pods } && match utils::parsed_name(listed[i].name@) {
            Ok(parts) => if names_with(listed, parts.uuid).len() == required {
                exists|k: int|
                    0 <= k < pods@.len() && (#[trigger] pods@[k]).uuid == parts.uuid && lifecycle::texts(
                        pods@[k].containers@,
                    ) == names_with(listed, parts.uuid)
            } else {
                lifecycle::texts(stop@).contains(listed[i].name@) && forall|k: int|
                    0 <= k < pods@.len() ==> (#[trigger] pods@[k]).uuid != parts.uuid
            },
            Err(_) => true,
        }),
{
    if adopt {
        if let OrphanPlan::Adopt { stop, pods } = p {
            if let Ok(parts) = utils::parsed_name(listed[i].name@) {
                let u = parts.uuid;
                assert(orphan_uuid(listed[i]) == Some(u));
                assert(present(listed, u));
                if names_with(listed, u).len() == required {
                    assert(complete(listed, u, required));
                    let k = choose|k: int| 0 <= k < pods@.len() && (#[trigger] pods@[k]).uuid == u;
                    assert(lifecycle::texts(pods@[k].containers@) == names_with(listed, u));
                } else {
                    let uuids = choose|uuids: Seq<u128>| #[trigger]
                        incomplete_pods(listed, required, uuids) && lifecycle::texts(stop@) == all_names(listed, uuids);
                    assert(!complete(listed, u, required));
                    assert(uuids.contains(u));
                    lemma_own_name(listed, i, u);
                    lemma_all_names(listed, uuids, u, listed[i].name@);
                }
            }
        }
    } else {
        if let OrphanPlan::StopAll(stop) = p {
            assert(lifecycle::texts(stop@).len() == stop@.len());
            assert(listed_names(listed).len() == listed.len());
            assert(lifecycle::texts(stop@)[i] == stop@[i]@);
            assert(listed_names(listed)[i] == listed[i].name@);
        }
    }
}

/// Nothing is stopped but listed containers of pods that are not whole.
pub proof fn only_parts_of_pods_are_stopped(
    stop: Vec<String>,
    pods: Vec<OrphanPod>,
    required: nat,
    listed: Seq<ContainerInfo>,
    name: Seq<char>,
) -> (i: int)
    requires
        listed.len() > 0,
        is_orphan_plan(OrphanPlan::Adopt { stop, pods }, true, required, listed),
        lifecycle::texts(stop@).contains(name),
    ensures
        0 <= i < listed.len(),
        listed[i].name@ == name,
        utils::parsed_name(name) matches Ok(parts) && names_with(listed, parts.uuid).len() != required,
{
    let uuids = choose|uuids: Seq<u128>| #[trigger]
        incomplete_pods(listed, required, uuids) && lifecycle::texts(stop@) == all_names(listed, uuids);
    let k = lemma_from_names(listed, uuids, name);
    let u = uuids[k];
    assert(uuids.contains(u));
    assert(!complete(listed, u, required));
    lemma_named_in(listed, u, name)
}

/// A container is among those of its pod.
proof fn lemma_own_name(listed: Seq<ContainerInfo>, i: int, u: u128)
    requires
        0 <= i < listed.len(),
        orphan_uuid(listed[i]) == Some(u),
    ensures
        names_with(listed, u).contains(listed[i].name@),
    decreases listed.len(),
{
    let rest = names_with(listed.drop_last(), u);
    let all = names_with(listed, u);
    if i < listed.len() - 1 {
        lemma_own_name(listed.drop_last(), i, u);
        let j = choose|j: int| 0 <= j < rest.len() && rest[j] == listed[i].name@;
        assert(all[j] == rest[j]);
    } else {
        assert(all[rest.len() as int] == listed[i].name@);
    }
}

/// The containers of a pod are among those of all pods.
proof fn lemma_all_names(listed: Seq<ContainerInfo>, uuids: Seq<u128>, u: u128, name: Seq<char>)
    requires
        uuids.contains(u),
        names_with(listed, u).contains(name),
    ensures
        all_names(listed, uuids).contains(name),
    decreases uuids.len(),
{
    let rest = uuids.drop_last();
    let (before, last) = (all_names(listed, rest), names_with(listed, uuids.last()));
    let all = all_names(listed, uuids);
    if uuids.last() == u {
        let j = choose|j: int| 0 <= j < last.len() && last[j] == name;
        assert(all[before.len() + j] == name);
    } else {
        let k = choose|k: int| 0 <= k < uuids.len() && uuids[k] == u;
        assert(rest[k] == u);
        lemma_all_names(listed, rest, u, name);
        let j = choose|j: int| 0 <= j < before.len() && before[j] == name;
        assert(all[j] == name);
    }
}

/// A name among those of all pods is that of a container of one of them.
proof fn lemma_from_names(listed: Seq<ContainerInfo>, uuids: Seq<u128>, name: Seq<char>) -> (k: int)
    requires
        all_names(listed, uuids).contains(name),
    ensures
        0 <= k < uuids.len(),
        names_with(listed, uuids[k]).contains(name),
    decreases uuids.len(),
{
    let rest = uuids.drop_last();
    let (before, last) = (all_names(listed, rest), names_with(listed, uuids.last()));
    let all = all_names(listed, uuids);
    let j = choose|j: int| 0 <= j < all.len() && all[j] == name;
    if j < before.len() {
        assert(before[j] == name);
        let k = lemma_from_names(listed, rest, name);
        assert(rest[k] == uuids[k]);
        k
    } else {
        assert(last[j - before.len()] == name);
        uuids.len() - 1
    }
}

/// The containers of a pod are listed, and their names tell the pod.
proof fn lemma_named_in(listed: Seq<ContainerInfo>, u: u128, name: Seq<char>) -> (i: int)
    requires
        names_with(listed, u).contains(name),
    ensures
        0 <= i < listed.len(),
        listed[i].name@ == name,
        orphan_uuid(listed[i]) == Some(u),
    decreases listed.len(),
{
    let rest = names_with(listed.drop_last(), u);
    let all = names_with(listed, u);
    let j = choose|j: int| 0 <= j < all.len() && all[j] == name;
    if j < rest.len() {
        assert(rest[j] == name);
        let i = lemma_named_in(listed.drop_last(), u, name);
        assert(listed[i] == listed.drop_last()[i]);
        i
    } else {
        listed.len() - 1
    }
}

/// A port of a container that is taken over is reached at the host port that its
/// container port is mapped to, and proxied on its node port, or on its own number
/// without one; a port that is not mapped is left out. A target port plays no part.
pub proof fn adopted_ports_are_reached_at_their_host_port(p: ContainerPort, mappings: Map<u16, u16>)
    ensures
        adopted_port(p, mappings) is Some <==> mappings.contains_key(p.port),
        adopted_port(p, mappings) matches Some(m) ==> {
            &&& m.port == mappings[p.port]
            &&& m.target_port is None
            &&& p.node_port is Some ==> m.node_port == p.node_port
            &&& p.node_port is None ==> m.node_port == Some(p.port)
        },
{
}

/// The ports of a container that is taken over are those of its entries, in order.
pub proof fn adopted_ports_join(
    a: Seq<ContainerPort>,
    b: Seq<ContainerPort>,
    p: ContainerPort,
    mappings: Map<u16, u16>,
)
    ensures
        adopted_ports(a + b, mappings) == adopted_ports(a, mappings) + adopted_ports(b, mappings),
        adopted_ports(seq![p], mappings) == (match adopted_port(p, mappings) {
            Some(m) => seq![m],
            None => Seq::empty(),
        }),
        adopted_ports(Seq::empty(), mappings) == Seq::<ContainerPortMetadata>::empty(),
    decreases b.len(),
{
    assert(adopted_ports(Seq::empty(), mappings) =~= Seq::<ContainerPortMetadata>::empty());
    assert(seq![p].drop_last() =~= Seq::empty());
    assert(seq![p].last() == p);
    if b.len() == 0 {
        assert(a + b =~= a);
        assert(adopted_ports(a, mappings) + adopted_ports(b, mappings) =~= adopted_ports(a, mappings));
    } else {
        assert((a + b).drop_last() =~= a + b.drop_last());
        assert((a + b).last() == b.last());
        adopted_ports_join(a, b.drop_last(), p, mappings);
        assert(adopted_ports(a + b, mappings) =~= adopted_ports(a, mappings) + adopted_ports(b, mappings));
    }
}

} // verus!
