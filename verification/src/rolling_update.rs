//! Rolling out new images pod by pod: each old pod is replaced before the next.

use crate::config::utils;
use crate::config::utils::ContainerNameError;
use crate::container::lifecycle;
use crate::container::naming;
use crate::container::rolling_update;
use crate::container::runtimes::start::StartedContainer;
use crate::container::scaling;
use crate::container::InstanceMetadata;
use crate::container::InstanceStore;
use crate::proxy;
use crate::proxy::Endpoint;
use crate::stores;
use rustc_hash::FxHashMap;
use vstd::prelude::*;
use vstd::string::*;

verus! {

/// The time that a new pod gets before the old one is taken away, in
/// nanoseconds.
pub const SETTLE_TIME: u128 = 5_000_000_000;

/// The time that requests in flight get before their pod goes, in nanoseconds.
pub const DRAIN_TIME: u128 = 10_000_000_000;

/// Why a rollout stops.
#[derive(Clone, Copy, PartialEq, Eq, Structural, Debug)]
pub enum RolloutError {
    ServiceNotFound,
    /// The name of a new container cannot be read.
    UnreadableName(ContainerNameError),
}

/// The pods to replace, in order.
pub fn pods_to_replace(store: &InstanceStore, service_name: &str) -> (r: Result<Vec<u128>, RolloutError>)
    ensures
        match r {
            Ok(order) => stores::entries(*store).contains_key(service_name@) && lifecycle::walks(
                order@,
                proxy::pods_of(stores::entries(*store), service_name@),
            ),
            Err(e) => !stores::entries(*store).contains_key(service_name@) && e == RolloutError::ServiceNotFound,
        },
{
    match stores::map_get(store, service_name) {
        Some(pods) => Ok(stores::id_keys(pods)),
        None => Err(RolloutError::ServiceNotFound),
    }
}

/// Puts the pod on record that replaces an old one. The result lists the endpoints
/// to put behind the proxies; nothing where the pod has no containers, and the old
/// one then stays.
pub fn add_replacement(
    store: &mut InstanceStore,
    service_name: &str,
    now: u128,
    image_hash: FxHashMap<String, String>,
    started: Vec<StartedContainer>,
) -> (r: Result<Option<Vec<Endpoint>>, RolloutError>)
    ensures
        ({
            let before = stores::entries(*old(store));
            let after = stores::entries(*final(store));
            if started@.len() == 0 {
                r matches Ok(l) && l is None && *final(store) == *old(store)
            } else {
                match utils::parsed_name(started@[0].name@) {
                    Err(e) => r matches Err(x) && x == RolloutError::UnreadableName(e) && *final(store) == *old(store),
                    Ok(p) => if !before.contains_key(service_name@) {
                        r matches Err(x) && x == RolloutError::ServiceNotFound && *final(store) == *old(store)
                    } else {
                        &&& r matches Ok(l) && l matches Some(list) && proxy::listing(list@)
                            == scaling::started_endpoints(
                            service_name@,
                            lifecycle::started_facts(started@),
                        )
                        &&& exists|m: InstanceMetadata|
                            {
                                &&& #[trigger] m@ == lifecycle::instance_facts(
                                    p.uuid,
                                    now,
                                    naming::pod_network(service_name@, p.uuid),
                                    rolling_update::images(image_hash),
                                    lifecycle::started_facts(started@),
                                )
                                &&& lifecycle::only_pods_changed(
                                    before,
                                    after,
                                    service_name@,
                                    proxy::pods_of(before, service_name@).insert(p.uuid, m),
                                )
                            }
                    },
                }
            }
        }),
{
    if started.len() == 0 {
        return Ok(None);
    }
    let uuid: u128 = match utils::parse_container_name(started[0].name.as_str()) {
        Ok(p) => p.uuid,
        Err(e) => {
            return Err(RolloutError::UnreadableName(e));
        },
    };
    if stores::map_get(store, service_name).is_none() {
        return Err(RolloutError::ServiceNotFound);
    }
    let list: Vec<Endpoint> = scaling::endpoints_of(service_name, &started);
    let network: String = naming::pod_network_name(service_name, uuid);
    let pod: InstanceMetadata = lifecycle::instance_from(uuid, now, network.as_str(), image_hash, started);
    assert(pod@.uuid == uuid);
    lifecycle::insert_pod(store, service_name, pod);
    Ok(Some(list))
}

/// Takes the old pod off the record.
pub fn drop_old_pod(store: &mut InstanceStore, service_name: &str, uuid: u128) -> (r: Result<(), RolloutError>)
    ensures
        ({
            let before = stores::entries(*old(store));
            &&& r is Ok == before.contains_key(service_name@)
            &&& r matches Err(e) ==> e == RolloutError::ServiceNotFound && *final(store) == *old(store)
            &&& r is Ok ==> lifecycle::only_pods_changed(
                before,
                stores::entries(*final(store)),
                service_name@,
                proxy::pods_of(before, service_name@).remove(uuid),
            )
        }),
{
    if stores::map_get(store, service_name).is_none() {
        return Err(RolloutError::ServiceNotFound);
    }
    lifecycle::remove_pod(store, service_name, uuid);
    Ok(())
}

/// Replacing a pod keeps the number of pods.
pub proof fn replacement_keeps_the_count(
    pods: Map<u128, InstanceMetadata>,
    old_pod: u128,
    new_pod: u128,
    metadata: InstanceMetadata,
)
    requires
        pods.dom().finite(),
        pods.contains_key(old_pod),
        !pods.contains_key(new_pod),
    ensures
        pods.insert(new_pod, metadata).remove(old_pod).len() == pods.len(),
{
    assert(pods.insert(new_pod, metadata).dom() =~= pods.dom().insert(new_pod));
    assert(pods.insert(new_pod, metadata).remove(old_pod).dom() =~= pods.dom().insert(new_pod).remove(old_pod));
}

} // verus!
