//! What the Docker runtime is asked to do.

use crate::config::limits;
use crate::config::limits::Amount;
use crate::config::limits::AmountFacts;
use crate::config::limits::LimitError;
use crate::config::ServiceConfig;
use crate::config::utils;
use crate::container::naming;
use crate::container::scaling;
use crate::container::runtimes::NetworkUsage;
use crate::container::Container;
use crate::container::ContainerPort;
use crate::container::ContainerPortMetadata;
use crate::container::NetworkLimit;
use crate::container::VolumeData;
use crate::container::VolumeMount;
use crate::stores;
use crate::text;
use rustc_hash::FxHashMap;
use rustc_hash::FxHashSet;
use vstd::prelude::*;
use vstd::string::*;

verus! {

/// How often a pod is tried to start.
pub const MAX_RETRIES: u32 = 3;

/// The wait between two tries, in nanoseconds.
pub const RETRY_DELAY: u128 = 2_000_000_000;

/// The services that use a network.
pub open spec fn users(usage: Map<Seq<char>, FxHashSet<String>>, network: Seq<char>) -> Set<Seq<char>> {
    if usage.contains_key(network) {
        stores::members(usage[network])
    } else {
        Set::empty()
    }
}

/// Every network on record has a user.
pub open spec fn no_idle_networks(usage: Map<Seq<char>, FxHashSet<String>>) -> bool {
    forall|n: Seq<char>| #[trigger] usage.contains_key(n) ==> users(usage, n) != Set::<Seq<char>>::empty()
}

/// No networks in use.
pub fn new_network_usage() -> (r: NetworkUsage)
    ensures
        forall|n: Seq<char>| !stores::entries(r).contains_key(n),
{
    stores::map_new()
}

/// Notes that a service uses a network.
pub fn track_network_usage(usage: &mut NetworkUsage, network_name: &str, service_name: &str)
    ensures
        ({
            let before = stores::entries(*old(usage));
            let after = stores::entries(*final(usage));
            &&& users(after, network_name@) == users(before, network_name@).insert(service_name@)
            &&& after.dom() == before.dom().insert(network_name@)
            &&& forall|n: Seq<char>| n != network_name@ ==> after[n] == #[trigger] before[n]
            &&& no_idle_networks(before) ==> no_idle_networks(after)
        }),
{
    let ghost before = stores::entries(*usage);
    let mut services: FxHashSet<String> = match stores::map_remove(usage, network_name) {
        Some(s) => s,
        None => stores::set_new(),
    };
    let _ = stores::set_insert(&mut services, service_name.to_owned());
    let _ = stores::map_insert(usage, network_name.to_owned(), services);
    proof {
        let after = stores::entries(*usage);
        assert(after.dom() =~= before.dom().insert(network_name@));
        assert(users(after, network_name@).contains(service_name@));
        if no_idle_networks(before) {
            assert forall|n: Seq<char>| #[trigger] after.contains_key(n) implies users(after, n) != Set::<
                Seq<char>,
            >::empty() by {
                if n != network_name@ {
                    assert(before.contains_key(n));
                    assert(users(after, n) == users(before, n));
                }
            }
        }
    }
}

/// The service is the last user of the network.
pub open spec fn last_user(usage: Map<Seq<char>, FxHashSet<String>>, network: Seq<char>, service: Seq<char>) -> bool {
    usage.contains_key(network) && users(usage, network).remove(service) == Set::<Seq<char>>::empty()
}

/// Notes that a service no longer uses a network. The result says whether the
/// network has lost its last user; it is then off the record.
pub fn untrack_network_usage(usage: &mut NetworkUsage, network_name: &str, service_name: &str) -> (r: bool)
    ensures
        ({
            let before = stores::entries(*old(usage));
            let after = stores::entries(*final(usage));
            &&& r == last_user(before, network_name@, service_name@)
            &&& users(after, network_name@) == users(before, network_name@).remove(service_name@)
            &&& after.dom() == (if r {
                before.dom().remove(network_name@)
            } else {
                before.dom()
            })
            &&& forall|n: Seq<char>| n != network_name@ ==> after[n] == #[trigger] before[n]
            &&& no_idle_networks(before) ==> no_idle_networks(after)
        }),
{
    let ghost before = stores::entries(*usage);
    let mut r: bool = false;
    if let Some(mut services) = stores::map_remove(usage, network_name) {
        let _ = stores::set_remove(&mut services, service_name);
        if stores::set_is_empty(&services) {
            r = true;
        } else {
            let _ = stores::map_insert(usage, network_name.to_owned(), services);
        }
    }
    proof {
        let after = stores::entries(*usage);
        if before.contains_key(network_name@) {
            if r {
                assert(after.dom() =~= before.dom().remove(network_name@));
            } else {
                assert(after.dom() =~= before.dom());
            }
        } else {
            assert(after.dom() =~= before.dom());
            assert(users(after, network_name@) =~= users(before, network_name@).remove(service_name@));
        }
        if no_idle_networks(before) {
            assert forall|n: Seq<char>| #[trigger] after.contains_key(n) implies users(after, n) != Set::<
                Seq<char>,
            >::empty() by {
                if n != network_name@ {
                    assert(before.contains_key(n));
                    assert(users(after, n) == users(before, n));
                }
            }
        }
    }
    r
}

/// The network that a pod is attached to.
#[derive(Debug)]
pub enum PodNetwork {
    /// The one that the service names.
    Shared(String),
    /// One of its own.
    Dedicated(String),
    /// The runtime's default.
    Default,
}

/// What a `PodNetwork` says.
pub enum PodNetworkFacts {
    Shared(Seq<char>),
    Dedicated(Seq<char>),
    Default,
}

impl View for PodNetwork {
    type V = PodNetworkFacts;

    open spec fn view(&self) -> PodNetworkFacts {
        match self {
            PodNetwork::Shared(n) => PodNetworkFacts::Shared(n@),
            PodNetwork::Dedicated(n) => PodNetworkFacts::Dedicated(n@),
            PodNetwork::Default => PodNetworkFacts::Default,
        }
    }
}

impl PodNetworkFacts {
    /// The name of the network, where the pod has one that is not the default.
    pub open spec fn name(self) -> Option<Seq<char>> {
        match self {
            PodNetworkFacts::Shared(n) => Some(n),
            PodNetworkFacts::Dedicated(n) => Some(n),
            PodNetworkFacts::Default => None,
        }
    }

    /// The name of the network, the default one too.
    pub open spec fn mode(self) -> Seq<char> {
        match self.name() {
            Some(n) => n,
            None => "bridge"@,
        }
    }
}

impl PodNetwork {
    /// The name of the network, where the pod has one that is not the default.
    pub fn name(&self) -> (r: Option<String>)
        ensures
            match r {
                Some(n) => self@.name() == Some(n@),
                None => self@.name() is None,
            },
    {
        match self {
            PodNetwork::Shared(n) => Some(n.clone()),
            PodNetwork::Dedicated(n) => Some(n.clone()),
            PodNetwork::Default => None,
        }
    }

    /// The name of the network, the default one too.
    pub fn mode(&self) -> (r: String)
        ensures
            r@ == self@.mode(),
    {
        match self.name() {
            Some(n) => n,
            None => "bridge".to_owned(),
        }
    }
}

/// The network for a pod: the one that the service names; else the default for
/// a single container, and one of its own for several.
pub open spec fn network_choice(
    network: Option<String>,
    service: Seq<char>,
    uuid: u128,
    container_count: nat,
) -> PodNetworkFacts {
    match network {
        Some(n) => PodNetworkFacts::Shared(n@),
        None => if container_count <= 1 {
            PodNetworkFacts::Default
        } else {
            PodNetworkFacts::Dedicated(naming::pod_network(service, uuid))
        },
    }
}

/// The network for a pod.
pub fn choose_pod_network(config: &ServiceConfig, service_name: &str, uuid: u128, container_count: usize) -> (r:
    PodNetwork)
    ensures
        r@ == network_choice(config.network, service_name@, uuid, container_count as nat),
{
    match &config.network {
        Some(n) => PodNetwork::Shared(n.clone()),
        None => {
            if container_count <= 1 {
                PodNetwork::Default
            } else {
                PodNetwork::Dedicated(naming::pod_network_name(service_name, uuid))
            }
        },
    }
}

/// What to do so that a network is there.
#[derive(Clone, Copy, PartialEq, Eq, Structural, Debug)]
pub struct NetworkSetup {
    /// Remove one of that name first.
    pub remove: bool,
    /// Create it.
    pub create: bool,
}

/// A network of that name is listed.
pub open spec fn listed(names: Seq<Option<String>>, name: Seq<char>) -> bool {
    exists|i: int| 0 <= i < names.len() && (#[trigger] names[i]) is Some && names[i]->0@ == name
}

/// What to do so that a network is there, given the names that the runtime
/// lists, if it can.
pub open spec fn setup_for(choice: PodNetworkFacts, names: Option<Seq<Option<String>>>) -> NetworkSetup {
    match choice {
        PodNetworkFacts::Shared(n) => NetworkSetup { remove: false, create: names is Some && !listed(names->0, n) },
        PodNetworkFacts::Dedicated(n) => NetworkSetup { remove: names is Some && listed(names->0, n), create: true },
        PodNetworkFacts::Default => NetworkSetup { remove: false, create: false },
    }
}

/// Whether a network of that name is listed.
fn is_listed(names: &Vec<Option<String>>, name: &String) -> (r: bool)
    ensures
        r == listed(names@, name@),
{
    let mut i: usize = 0;
    while i < names.len()
        invariant
            i <= names@.len(),
            forall|j: int| 0 <= j < i ==> !((#[trigger] names@[j]) is Some && names@[j]->0@ == name@),
        decreases names@.len() - i,
    {
        if let Some(n) = &names[i] {
            if *n == *name {
                assert(names@[i as int] is Some && names@[i as int]->0@ == name@);
                return true;
            }
        }
        i = i + 1;
    }
    false
}

/// What to do so that the network of a pod is there.
pub fn setup_pod_network(choice: &PodNetwork, names: &Option<Vec<Option<String>>>) -> (r: NetworkSetup)
    ensures
        r == setup_for(
            choice@,
            match *names {
                Some(n) => Some(n@),
                None => None,
            },
        ),
{
    match choice {
        PodNetwork::Shared(n) => {
            let create: bool = match names {
                Some(l) => !is_listed(l, n),
                None => false,
            };
            NetworkSetup { remove: false, create }
        },
        PodNetwork::Dedicated(n) => {
            let remove: bool = match names {
                Some(l) => is_listed(l, n),
                None => false,
            };
            NetworkSetup { remove, create: true }
        },
        PodNetwork::Default => NetworkSetup { remove: false, create: false },
    }
}

/// Puts the use of a shared network on record once its setup is done; where it
/// has failed, nothing is recorded.
pub fn record_pod_network(usage: &mut NetworkUsage, choice: &PodNetwork, service_name: &str, done: bool)
    ensures
        match choice@ {
            PodNetworkFacts::Shared(n) if done => {
                &&& users(stores::entries(*final(usage)), n) == users(stores::entries(*old(usage)), n).insert(
                    service_name@,
                )
                &&& stores::entries(*final(usage)).dom() == stores::entries(*old(usage)).dom().insert(n)
                &&& forall|k: Seq<char>|
                    k != n ==> stores::entries(*final(usage))[k] == #[trigger] stores::entries(*old(usage))[k]
            },
            _ => *final(usage) == *old(usage),
        },
{
    if let PodNetwork::Shared(n) = choice {
        if done {
            track_network_usage(usage, n.as_str(), service_name);
        }
    }
}

/// The network goes once a service is done with it: never the default, always
/// one that belongs to a pod, and a shared one with its last user.
pub open spec fn network_goes(
    usage: Map<Seq<char>, FxHashSet<String>>,
    network: Seq<char>,
    service: Seq<char>,
) -> bool {
    if network == "bridge"@ {
        false
    } else if text::first_occurrence(network, "__"@, 0) is Some {
        true
    } else {
        last_user(usage, network, service)
    }
}

/// Whether to remove a network that a service is done with.
pub fn remove_pod_network(usage: &mut NetworkUsage, network_name: &str, service_name: &str) -> (r: bool)
    ensures
        r == network_goes(stores::entries(*old(usage)), network_name@, service_name@),
        network_name@ == "bridge"@ || text::first_occurrence(network_name@, "__"@, 0) is Some ==> *final(usage)
            == *old(usage),
        network_name@ != "bridge"@ && text::first_occurrence(network_name@, "__"@, 0) is None ==> {
            let before = stores::entries(*old(usage));
            let after = stores::entries(*final(usage));
            &&& users(after, network_name@) == users(before, network_name@).remove(service_name@)
            &&& after.dom() == (if r {
                before.dom().remove(network_name@)
            } else {
                before.dom()
            })
            &&& forall|n: Seq<char>| n != network_name@ ==> after[n] == #[trigger] before[n]
        },
{
    if text::same(network_name, "bridge") {
        return false;
    }
    if text::contains(network_name, "__") {
        return true;
    }
    untrack_network_usage(usage, network_name, service_name)
}

/// A network of a pod's own always goes with the pod.
pub proof fn dedicated_networks_always_go(usage: Map<Seq<char>, FxHashSet<String>>, service: Seq<char>, uuid: u128)
    ensures
        network_goes(usage, naming::pod_network(service, uuid), service),
{
    reveal_strlit("__");
    reveal_strlit("bridge");
    let sep = "__"@;
    let name = naming::pod_network(service, uuid);
    let i = service.len() as int;
    assert(name.subrange(i, i + 2) =~= sep);
    text::lemma_first_occurrence(name, sep, 0);
    assert(text::occurs_at(name, sep, i));
    if name == "bridge"@ {
        assert(name[i] == '_');
        assert("bridge"@.len() == 6);
        assert("bridge"@[i] != '_');
    }
}

/// What a service does with a shared network can be undone: once the only user
/// is gone, so is the network.
pub proof fn sole_user_takes_the_network_along(
    before: Map<Seq<char>, FxHashSet<String>>,
    after: Map<Seq<char>, FxHashSet<String>>,
    network: Seq<char>,
    service: Seq<char>,
)
    requires
        !before.contains_key(network),
        after.contains_key(network),
        users(after, network) == users(before, network).insert(service),
    ensures
        last_user(after, network, service),
{
    assert(users(after, network).remove(service) =~= Set::<Seq<char>>::empty());
}

/// A network with another user stays.
pub proof fn networks_in_use_stay(
    usage: Map<Seq<char>, FxHashSet<String>>,
    network: Seq<char>,
    service: Seq<char>,
    other: Seq<char>,
)
    requires
        users(usage, network).contains(other),
        other != service,
    ensures
        !last_user(usage, network, service),
{
    assert(users(usage, network).remove(service).contains(other));
}

/// Where the contents of a mount come from.
#[derive(Debug)]
pub enum MountSource {
    /// A path of the host, which must exist.
    HostPath(String),
    /// The inline files of a volume.
    Files {
        volume: String,
        /// The one file to mount, which must be among them.
        sub_path: Option<String>,
    },
    /// The named volume.
    NamedVolume(String),
}

/// One mount of a container.
#[derive(Debug)]
pub struct MountPlan {
    pub target: String,
    pub read_only: bool,
    pub source: MountSource,
}

/// What a `MountSource` says.
pub enum SourceFacts {
    HostPath(Seq<char>),
    Files { volume: Seq<char>, sub_path: Option<Seq<char>> },
    NamedVolume(Seq<char>),
}

/// What a `MountPlan` says.
pub struct MountFacts {
    pub target: Seq<char>,
    pub read_only: bool,
    pub source: SourceFacts,
}

/// An optional text.
pub open spec fn optional_text(s: Option<String>) -> Option<Seq<char>> {
    match s {
        Some(t) => Some(t@),
        None => None,
    }
}

impl View for MountSource {
    type V = SourceFacts;

    open spec fn view(&self) -> SourceFacts {
        match self {
            MountSource::HostPath(p) => SourceFacts::HostPath(p@),
            MountSource::Files { volume, sub_path } => {
                SourceFacts::Files { volume: volume@, sub_path: optional_text(*sub_path) }
            },
            MountSource::NamedVolume(name) => SourceFacts::NamedVolume(name@),
        }
    }
}

impl View for MountPlan {
    type V = MountFacts;

    open spec fn view(&self) -> MountFacts {
        MountFacts { target: self.target@, read_only: self.read_only, source: self.source@ }
    }
}

/// Where the contents of a volume come from under an entry: the host path, the
/// inline files or the named volume; the first that is given counts.
pub open spec fn source_of(m: VolumeMount, data: VolumeData) -> Option<SourceFacts> {
    match (data.host_path, data.files, data.named_volume) {
        (Some(p), _, _) => Some(SourceFacts::HostPath(p@)),
        (None, Some(_), _) => Some(SourceFacts::Files { volume: m.name@, sub_path: optional_text(m.sub_path) }),
        (None, None, Some(n)) => Some(SourceFacts::NamedVolume(n.name@)),
        (None, None, None) => None,
    }
}

/// The mount that an entry calls for; none where the volume is unknown or empty.
pub open spec fn mount_of(m: VolumeMount, volumes: Map<Seq<char>, VolumeData>) -> Option<MountFacts> {
    if !volumes.contains_key(m.name@) {
        None
    } else {
        match source_of(m, volumes[m.name@]) {
            Some(source) => Some(
                MountFacts {
                    target: m.mount_path@,
                    read_only: match m.read_only {
                        Some(b) => b,
                        None => true,
                    },
                    source,
                },
            ),
            None => None,
        }
    }
}

/// The mounts that a list of entries calls for, in order.
pub open spec fn mounts_of(m: Seq<VolumeMount>, volumes: Map<Seq<char>, VolumeData>) -> Seq<MountFacts>
    decreases m.len(),
{
    if m.len() == 0 {
        Seq::empty()
    } else {
        let rest = mounts_of(m.drop_last(), volumes);
        match mount_of(m.last(), volumes) {
            Some(f) => rest.push(f),
            None => rest,
        }
    }
}

/// An optional text, copied.
fn copy_optional(s: &Option<String>) -> (r: Option<String>)
    ensures
        optional_text(r) == optional_text(*s),
{
    match s {
        Some(t) => Some(t.clone()),
        None => None,
    }
}

/// Where the contents of a volume come from under an entry.
fn mount_source(m: &VolumeMount, data: &VolumeData) -> (r: Option<MountSource>)
    ensures
        source_of(*m, *data) == (match r {
            Some(s) => Some(s@),
            None => None,
        }),
{
    if let Some(p) = &data.host_path {
        Some(MountSource::HostPath(p.clone()))
    } else if data.files.is_some() {
        Some(MountSource::Files { volume: m.name.clone(), sub_path: copy_optional(&m.sub_path) })
    } else if let Some(n) = &data.named_volume {
        Some(MountSource::NamedVolume(n.name.clone()))
    } else {
        None
    }
}

/// The mounts of a container, in the order in which they are to be set up.
pub fn setup_volume_mounts(container: &Container, config: &ServiceConfig) -> (r: Vec<MountPlan>)
    ensures
        r@.map_values(|m: MountPlan| m@) == (match (container.volume_mounts, config.volumes) {
            (Some(m), Some(v)) => mounts_of(m@, stores::entries(v)),
            _ => Seq::empty(),
        }),
{
    let mut r: Vec<MountPlan> = Vec::new();
    assert(r@.map_values(|m: MountPlan| m@) =~= Seq::empty());
    let mounts: &Vec<VolumeMount> = match &container.volume_mounts {
        Some(m) => m,
        None => {
            return r;
        },
    };
    let volumes: &FxHashMap<String, VolumeData> = match &config.volumes {
        Some(v) => v,
        None => {
            return r;
        },
    };
    let mut i: usize = 0;
    assert(mounts@.take(0) =~= Seq::empty());
    while i < mounts.len()
        invariant
            i <= mounts@.len(),
            r@.map_values(|m: MountPlan| m@) == mounts_of(mounts@.take(i as int), stores::entries(*volumes)),
        decreases mounts@.len() - i,
    {
        let mount: &VolumeMount = &mounts[i];
        let ghost before = r@;
        proof {
            assert(mounts@.take(i + 1).drop_last() =~= mounts@.take(i as int));
            assert(mounts@.take(i + 1).last() == mounts@[i as int]);
        }
        if let Some(data) = stores::map_get(volumes, mount.name.as_str()) {
            let read_only: bool = match mount.read_only {
                Some(b) => b,
                None => true,
            };
            if let Some(source) = mount_source(mount, data) {
                let plan: MountPlan = MountPlan { target: mount.mount_path.clone(), read_only, source };
                r.push(plan);
                assert(r@.map_values(|m: MountPlan| m@) =~= before.map_values(|m: MountPlan| m@).push(plan@));
            }
        }
        i = i + 1;
    }
    assert(mounts@.take(i as int) =~= mounts@);
    r
}

/// Mounts are read-only unless the definition says otherwise.
pub proof fn mounts_are_read_only_by_default(m: VolumeMount, volumes: Map<Seq<char>, VolumeData>)
    requires
        m.read_only is None,
    ensures
        mount_of(m, volumes) matches Some(f) ==> f.read_only,
{
}

/// Every entry on a volume that holds anything is mounted where it says.
pub proof fn every_entry_is_mounted(m: VolumeMount, volumes: Map<Seq<char>, VolumeData>)
    requires
        volumes.contains_key(m.name@),
        volumes[m.name@].host_path is Some || volumes[m.name@].files is Some || volumes[m.name@].named_volume is Some,
    ensures
        mount_of(m, volumes) matches Some(f) && f.target == m.mount_path@,
{
}

/// The volume is there, and holds anything.
pub open spec fn mountable(m: VolumeMount, volumes: Map<Seq<char>, VolumeData>) -> bool {
    volumes.contains_key(m.name@) && source_of(m, volumes[m.name@]) is Some
}

/// Where every entry is on a volume that holds anything, each entry is mounted, in
/// its place: where it says, and read-only unless it says otherwise.
pub proof fn all_entries_are_mounted(m: Seq<VolumeMount>, volumes: Map<Seq<char>, VolumeData>, i: int)
    requires
        forall|j: int| 0 <= j < m.len() ==> mountable(#[trigger] m[j], volumes),
        0 <= i < m.len(),
    ensures
        mounts_of(m, volumes).len() == m.len(),
        mounts_of(m, volumes)[i].target == m[i].mount_path@,
        mounts_of(m, volumes)[i].read_only == (m[i].read_only != Some(false)),
        Some(mounts_of(m, volumes)[i].source) == source_of(m[i], volumes[m[i].name@]),
    decreases m.len(),
{
    let rest = m.drop_last();
    assert(mountable(m[m.len() - 1], volumes));
    assert forall|j: int| 0 <= j < rest.len() implies mountable(#[trigger] rest[j], volumes) by {
        assert(mountable(m[j], volumes));
    }
    if i < rest.len() {
        all_entries_are_mounted(rest, volumes, i);
    } else if rest.len() > 0 {
        all_entries_are_mounted(rest, volumes, 0);
    } else {
        assert(mounts_of(rest, volumes).len() == 0);
    }
}

/// A request for a traffic rule.
#[derive(Debug)]
pub struct DeviceRequest {
    pub driver: String,
    pub count: i64,
    pub capability: String,
}

/// The rates that a network limit sets: both, or none.
pub open spec fn rates_of(limit: NetworkLimit) -> Result<Option<(AmountFacts, AmountFacts)>, LimitError> {
    match (limit.ingress_rate, limit.egress_rate) {
        (Some(i), Some(e)) => {
            let ingress = limits::amount_of(limits::rate_captures(i@), |u: Seq<char>| limits::rate_multiplier(u));
            let egress = limits::amount_of(limits::rate_captures(e@), |u: Seq<char>| limits::rate_multiplier(u));
            match (ingress, egress) {
                (Err(x), _) => Err(x),
                (Ok(_), Err(x)) => Err(x),
                (Ok(a), Ok(b)) => Ok(Some((a, b))),
            }
        },
        _ => Ok(None),
    }
}

/// Two rates, or none, as they read.
pub open spec fn rate_facts(r: Option<(Amount, Amount)>) -> Option<(AmountFacts, AmountFacts)> {
    match r {
        Some(p) => Some((p.0@, p.1@)),
        None => None,
    }
}

/// The rates that a network limit sets: both, or none.
pub fn network_rates(limit: &NetworkLimit) -> (r: Result<Option<(Amount, Amount)>, LimitError>)
    ensures
        match r {
            Ok(p) => rates_of(*limit) == Ok::<Option<(AmountFacts, AmountFacts)>, LimitError>(rate_facts(p)),
            Err(e) => rates_of(*limit) == Err::<Option<(AmountFacts, AmountFacts)>, LimitError>(e),
        },
{
    match &limit.ingress_rate {
        Some(i) => match &limit.egress_rate {
            Some(e) => {
                let ingress: Amount = match limits::parse_network_rate(i.as_str()) {
                    Ok(a) => a,
                    Err(x) => {
                        return Err(x);
                    },
                };
                let egress: Amount = match limits::parse_network_rate(e.as_str()) {
                    Ok(a) => a,
                    Err(x) => {
                        return Err(x);
                    },
                };
                Ok(Some((ingress, egress)))
            },
            None => Ok(None),
        },
        None => Ok(None),
    }
}

/// The traffic rules for two rates in bits per second.
pub fn prepare_network_limits(ingress_bps: u64, egress_bps: u64) -> (r: Vec<DeviceRequest>)
    ensures
        r@.len() == 2,
        r@[0].driver@ == "tc-ingress"@,
        r@[0].count == 1,
        r@[0].capability@ == "rate="@ + text::decimal(ingress_bps as nat),
        r@[1].driver@ == "tc-egress"@,
        r@[1].count == 1,
        r@[1].capability@ == "rate="@ + text::decimal(egress_bps as nat),
{
    let mut r: Vec<DeviceRequest> = Vec::new();
    let ingress: String = text::decimal_of(ingress_bps as u128);
    let egress: String = text::decimal_of(egress_bps as u128);
    r.push(
        DeviceRequest {
            driver: "tc-ingress".to_owned(),
            count: 1,
            capability: "rate=".to_owned().concat(ingress.as_str()),
        },
    );
    r.push(
        DeviceRequest {
            driver: "tc-egress".to_owned(),
            count: 1,
            capability: "rate=".to_owned().concat(egress.as_str()),
        },
    );
    r
}

/// Where a container port is reached on the host.
#[derive(Debug)]
pub struct HostBinding {
    pub host_ip: String,
    pub host_port: String,
}

/// What a `HostBinding` says.
pub struct HostBindingFacts {
    pub host_ip: Seq<char>,
    pub host_port: Seq<char>,
}

impl View for HostBinding {
    type V = HostBindingFacts;

    open spec fn view(&self) -> HostBindingFacts {
        HostBindingFacts { host_ip: self.host_ip@, host_port: self.host_port@ }
    }
}

/// The ports that a container is started with.
#[derive(Debug)]
pub struct PortSetup {
    /// Where each container port that is mapped to a host port is reached.
    pub bindings: FxHashMap<String, HostBinding>,
    /// The container ports.
    pub exposed: FxHashSet<String>,
    pub metadata: Vec<ContainerPortMetadata>,
}

/// The key of a container port.
pub open spec fn port_key(port: u16) -> Seq<char> {
    text::decimal(port as nat) + "/tcp"@
}

/// The host port on every address of the host.
pub open spec fn everywhere(host_port: u16) -> HostBindingFacts {
    HostBindingFacts { host_ip: "0.0.0.0"@, host_port: text::decimal(host_port as nat) }
}

/// The bindings by container port; of several for one port, the last.
pub open spec fn bindings_of(ports: Seq<ContainerPort>) -> Map<Seq<char>, HostBindingFacts>
    decreases ports.len(),
{
    if ports.len() == 0 {
        Map::empty()
    } else {
        let rest = bindings_of(ports.drop_last());
        match ports.last().target_port {
            Some(t) => rest.insert(port_key(ports.last().port), everywhere(t)),
            None => rest,
        }
    }
}

/// The keys of the container ports.
pub open spec fn exposed_of(ports: Seq<ContainerPort>) -> Set<Seq<char>>
    decreases ports.len(),
{
    if ports.len() == 0 {
        Set::empty()
    } else {
        exposed_of(ports.drop_last()).insert(port_key(ports.last().port))
    }
}

/// What is kept about a port.
pub open spec fn port_metadata(p: ContainerPort) -> ContainerPortMetadata {
    ContainerPortMetadata { port: p.port, target_port: p.target_port, node_port: p.node_port }
}

/// The ports of a container.
pub open spec fn ports_of(container: Container) -> Seq<ContainerPort> {
    match container.ports {
        Some(p) => p@,
        None => Seq::empty(),
    }
}

/// `s` is the set-up for the ports.
pub open spec fn is_port_setup(s: PortSetup, ports: Seq<ContainerPort>) -> bool {
    &&& stores::entries(s.bindings).map_values(|v: HostBinding| v@) == bindings_of(ports)
    &&& stores::members(s.exposed) == exposed_of(ports)
    &&& s.metadata@ == ports.map_values(|p: ContainerPort| port_metadata(p))
}

/// The ports that a container is started with.
pub fn prepare_port_configuration(container: &Container) -> (r: PortSetup)
    ensures
        is_port_setup(r, ports_of(*container)),
{
    let mut r: PortSetup = PortSetup {
        bindings: stores::map_new(),
        exposed: stores::set_new(),
        metadata: Vec::new(),
    };
    proof {
        assert(stores::entries(r.bindings).map_values(|v: HostBinding| v@) =~= Map::<
            Seq<char>,
            HostBindingFacts,
        >::empty());
        assert(r.metadata@ =~= Seq::<ContainerPort>::empty().map_values(|p: ContainerPort| port_metadata(p)));
    }
    if let Some(ports) = &container.ports {
        let mut i: usize = 0;
        assert(ports@.take(0) =~= Seq::empty());
        while i < ports.len()
            invariant
                i <= ports@.len(),
                is_port_setup(r, ports@.take(i as int)),
            decreases ports@.len() - i,
        {
            let p: ContainerPort = ports[i];
            let ghost so_far = ports@.take(i as int);
            let ghost old_bindings = stores::entries(r.bindings);
            proof {
                assert(ports@.take(i + 1).drop_last() =~= so_far);
                assert(ports@.take(i + 1).last() == p);
            }
            let number: String = text::decimal_of(p.port as u128);
            let key: String = number.concat("/tcp");
            let _ = stores::set_insert(&mut r.exposed, key.clone());
            if let Some(t) = p.target_port {
                let binding: HostBinding = HostBinding {
                    host_ip: "0.0.0.0".to_owned(),
                    host_port: text::decimal_of(t as u128),
                };
                let _ = stores::map_insert(&mut r.bindings, key, binding);
                assert(stores::entries(r.bindings).map_values(|v: HostBinding| v@) =~= old_bindings.map_values(
                    |v: HostBinding| v@,
                ).insert(port_key(p.port), everywhere(t)));
            }
            r.metadata.push(ContainerPortMetadata { port: p.port, target_port: p.target_port, node_port: p.node_port });
            assert(r.metadata@ =~= ports@.take(i + 1).map_values(|p: ContainerPort| port_metadata(p)));
            i = i + 1;
        }
        assert(ports@.take(i as int) =~= ports@);
    }
    r
}

/// What to do after a pod failed to start.
#[derive(Clone, Copy, PartialEq, Eq, Structural, Debug)]
pub enum RetryStep {
    /// Report the failure.
    GiveUp,
    /// Try again after a while, in nanoseconds.
    RetryAfter(u128),
}

/// What to do after a pod failed to start, having failed `failures` times
/// before.
pub open spec fn retry_step(failures: u32) -> RetryStep {
    if failures + 1 == MAX_RETRIES {
        RetryStep::GiveUp
    } else {
        RetryStep::RetryAfter(RETRY_DELAY)
    }
}

/// What to do after a pod failed to start, having failed `failures` times
/// before.
pub fn start_containers(failures: u32) -> (r: RetryStep)
    requires
        failures < MAX_RETRIES,
    ensures
        r == (if failures + 1 == MAX_RETRIES {
            RetryStep::GiveUp
        } else {
            RetryStep::RetryAfter(RETRY_DELAY)
        }),
        r == retry_step(failures),
{
    if failures + 1 == MAX_RETRIES {
        RetryStep::GiveUp
    } else {
        RetryStep::RetryAfter(RETRY_DELAY)
    }
}

/// A pod joins the network that its service names, whatever its size. Without one, a
/// single container stays on the default network, and several get a network of their
/// own, named after the service and the UUID of the pod.
pub proof fn networks_follow_the_definition(network: Option<String>, service: Seq<char>, uuid: u128, count: nat)
    ensures
        network matches Some(n) ==> network_choice(network, service, uuid, count) == PodNetworkFacts::Shared(n@)
            && network_choice(network, service, uuid, count).mode() == n@,
        network is None && count < 2 ==> network_choice(network, service, uuid, count).name() is None
            && network_choice(network, service, uuid, count).mode() == "bridge"@,
        network is None && count >= 2 ==> network_choice(network, service, uuid, count) == PodNetworkFacts::Dedicated(
            service + "__"@ + utils::hyphenated(uuid),
        ) && network_choice(network, service, uuid, count).mode() == service + "__"@ + utils::hyphenated(uuid),
{
}

/// The runtime lists a network of that name.
pub open spec fn is_there(names: Option<Seq<Option<String>>>, n: Seq<char>) -> bool {
    names is Some && exists|i: int| 0 <= i < names->0.len() && optional_text(#[trigger] names->0[i]) == Some(n)
}

/// Once a network is set up it is there, and only once: a shared one is created
/// exactly where the runtime lists others but not it, and never removed; one of a
/// pod's own is created anew, after the removal of one that is listed under its name;
/// the default one is left alone.
pub proof fn networks_are_there_once_set_up(choice: PodNetworkFacts, names: Option<Seq<Option<String>>>)
    ensures
        ({
            let setup = setup_for(choice, names);
            match choice {
                PodNetworkFacts::Shared(n) => !setup.remove && setup.create == (names is Some && !is_there(names, n)),
                PodNetworkFacts::Dedicated(n) => setup.create && setup.remove == is_there(names, n),
                PodNetworkFacts::Default => !setup.remove && !setup.create,
            }
        }),
{
    if names is Some {
        let list = names->0;
        match choice {
            PodNetworkFacts::Shared(n) | PodNetworkFacts::Dedicated(n) => {
                if listed(list, n) {
                    let i = choose|i: int| 0 <= i < list.len() && (#[trigger] list[i]) is Some && list[i]->0@ == n;
                    assert(optional_text(list[i]) == Some(n));
                }
                if is_there(names, n) {
                    let i = choose|i: int| 0 <= i < list.len() && optional_text(#[trigger] list[i]) == Some(n);
                    assert(list[i] is Some && list[i]->0@ == n);
                }
            },
            _ => {},
        }
    }
}

/// A network goes with a service exactly where it is a pod's own, told by the double
/// underscore in its name, or where the service was on record for it and no other
/// service is; the default network never goes.
pub proof fn networks_go_with_their_last_user(
    usage: Map<Seq<char>, FxHashSet<String>>,
    network: Seq<char>,
    service: Seq<char>,
)
    ensures
        network == "bridge"@ ==> !network_goes(usage, network, service),
        network != "bridge"@ && scaling::holds_text(network, "__"@) ==> network_goes(usage, network, service),
        network != "bridge"@ && !scaling::holds_text(network, "__"@) ==> network_goes(usage, network, service) == (
        usage.contains_key(network) && forall|other: Seq<char>|
            other != service ==> !#[trigger] stores::members(usage[network]).contains(other)),
{
    scaling::lemma_holds_text(network, "__"@);
    if usage.contains_key(network) {
        let all = stores::members(usage[network]);
        if forall|other: Seq<char>| other != service ==> !#[trigger] all.contains(other) {
            assert(all.remove(service) =~= Set::<Seq<char>>::empty());
        }
        if all.remove(service) == Set::<Seq<char>>::empty() {
            assert forall|other: Seq<char>| other != service implies !#[trigger] all.contains(other) by {
                assert(!all.remove(service).contains(other));
            }
        }
    }
}

/// Where the contents of a mount come from: the host path where the volume has one,
/// else its inline files, of which the entry may name one, else the named volume. An
/// entry is mounted exactly where its volume is defined and has one of these.
pub proof fn mounts_come_from_their_volume(m: VolumeMount, volumes: Map<Seq<char>, VolumeData>)
    ensures
        mount_of(m, volumes) is Some <==> volumes.contains_key(m.name@) && (volumes[m.name@].host_path is Some
            || volumes[m.name@].files is Some || volumes[m.name@].named_volume is Some),
        mount_of(m, volumes) matches Some(f) ==> {
            let data = volumes[m.name@];
            &&& f.target == m.mount_path@
            &&& f.read_only <==> m.read_only != Some(false)
            &&& data.host_path matches Some(p) ==> f.source == SourceFacts::HostPath(p@)
            &&& data.host_path is None && data.files is Some ==> f.source == (SourceFacts::Files {
                volume: m.name@,
                sub_path: match m.sub_path {
                    Some(p) => Some(p@),
                    None => None,
                },
            })
            &&& data.host_path is None && data.files is None ==> (data.named_volume matches Some(n) && f.source
                == SourceFacts::NamedVolume(n.name@))
        },
{
}

/// The mounts of several entries are those of each, in their order.
pub proof fn mounts_join(a: Seq<VolumeMount>, b: Seq<VolumeMount>, m: VolumeMount, volumes: Map<Seq<char>, VolumeData>)
    ensures
        mounts_of(a + b, volumes) == mounts_of(a, volumes) + mounts_of(b, volumes),
        mounts_of(seq![m], volumes) == (match mount_of(m, volumes) {
            Some(f) => seq![f],
            None => Seq::empty(),
        }),
        mounts_of(Seq::empty(), volumes) == Seq::<MountFacts>::empty(),
    decreases b.len(),
{
    assert(mounts_of(Seq::empty(), volumes) =~= Seq::<MountFacts>::empty());
    assert(seq![m].drop_last() =~= Seq::empty());
    assert(seq![m].last() == m);
    if b.len() == 0 {
        assert(a + b =~= a);
        assert(mounts_of(a, volumes) + mounts_of(b, volumes) =~= mounts_of(a, volumes));
    } else {
        assert((a + b).drop_last() =~= a + b.drop_last());
        assert((a + b).last() == b.last());
        mounts_join(a, b.drop_last(), m, volumes);
        assert(mounts_of(a + b, volumes) =~= mounts_of(a, volumes) + mounts_of(b, volumes));
    }
}

/// The key of a container port names it.
proof fn lemma_port_key(a: u16, b: u16)
    requires
        port_key(a) == port_key(b),
    ensures
        a == b,
{
    reveal_strlit("/tcp");
    let (x, y) = (text::decimal(a as nat), text::decimal(b as nat));
    assert(port_key(a).take(port_key(a).len() - 4) =~= x);
    assert(port_key(b).take(port_key(b).len() - 4) =~= y);
    text::numerals_are_distinct(a as nat, b as nat);
}

/// The entry binds the container port on the host.
pub open spec fn binds(p: ContainerPort, port: u16) -> bool {
    p.port == port && p.target_port is Some
}

/// A container port of which an entry has a target port is bound on the host: to the
/// target port of the last such entry, on every address. Node ports play no part.
pub proof fn target_ports_are_bound_on_the_host(ports: Seq<ContainerPort>, port: u16, i: int)
    requires
        0 <= i < ports.len(),
        binds(ports[i], port),
        forall|j: int| i < j < ports.len() ==> !binds(#[trigger] ports[j], port),
    ensures
        bindings_of(ports).contains_key(text::decimal(port as nat) + "/tcp"@),
        bindings_of(ports)[text::decimal(port as nat) + "/tcp"@].host_ip == "0.0.0.0"@,
        bindings_of(ports)[text::decimal(port as nat) + "/tcp"@].host_port == text::decimal(
            ports[i].target_port->0 as nat,
        ),
    decreases ports.len(),
{
    let n = ports.len() - 1;
    if i < n {
        assert(!binds(ports[n], port));
        let rest = ports.drop_last();
        assert(rest[i] == ports[i]);
        assert forall|j: int| i < j < rest.len() implies !binds(#[trigger] rest[j], port) by {
            assert(rest[j] == ports[j]);
        }
        target_ports_are_bound_on_the_host(rest, port, i);
        if ports[n].target_port is Some && port_key(ports[n].port) == port_key(port) {
            lemma_port_key(ports[n].port, port);
        }
    }
}

/// A container port without an entry that has a target port is not bound.
pub proof fn other_ports_are_not_bound(ports: Seq<ContainerPort>, port: u16)
    requires
        forall|j: int| 0 <= j < ports.len() ==> !binds(#[trigger] ports[j], port),
    ensures
        !bindings_of(ports).contains_key(text::decimal(port as nat) + "/tcp"@),
    decreases ports.len(),
{
    if ports.len() > 0 {
        let rest = ports.drop_last();
        let n = ports.len() - 1;
        assert(!binds(ports[n], port));
        assert forall|j: int| 0 <= j < rest.len() implies !binds(#[trigger] rest[j], port) by {
            assert(rest[j] == ports[j]);
        }
        other_ports_are_not_bound(rest, port);
        if ports[n].target_port is Some && port_key(ports[n].port) == port_key(port) {
            lemma_port_key(ports[n].port, port);
        }
    }
}

/// Every container port of every entry is exposed, and no other.
pub proof fn container_ports_are_exposed(ports: Seq<ContainerPort>, key: Seq<char>)
    ensures
        exposed_of(ports).contains(key) <==> exists|i: int|
            0 <= i < ports.len() && key == text::decimal((#[trigger] ports[i]).port as nat) + "/tcp"@,
    decreases ports.len(),
{
    if ports.len() > 0 {
        let rest = ports.drop_last();
        container_ports_are_exposed(rest, key);
        if exposed_of(rest).contains(key) {
            let i = choose|i: int|
                0 <= i < rest.len() && key == text::decimal((#[trigger] rest[i]).port as nat) + "/tcp"@;
            assert(ports[i] == rest[i]);
        } else if exposed_of(ports).contains(key) {
            assert(key == text::decimal(ports[ports.len() - 1].port as nat) + "/tcp"@);
        }
        if exists|i: int| 0 <= i < ports.len() && key == text::decimal((#[trigger] ports[i]).port as nat) + "/tcp"@ {
            let i = choose|i: int|
                0 <= i < ports.len() && key == text::decimal((#[trigger] ports[i]).port as nat) + "/tcp"@;
            if i < rest.len() {
                assert(rest[i] == ports[i]);
            }
        }
    }
}

/// Each port entry is noted with its three ports as they are.
pub proof fn port_entries_are_noted(p: ContainerPort)
    ensures
        port_metadata(p).port == p.port,
        port_metadata(p).target_port == p.target_port,
        port_metadata(p).node_port == p.node_port,
{
}

/// Traffic is limited exactly where both rates are given; then both are read, and
/// either one that cannot be is an error.
pub proof fn traffic_is_limited_by_both_rates(limit: NetworkLimit)
    ensures
        limit.ingress_rate is None || limit.egress_rate is None ==> rates_of(limit) == Ok::<
            Option<(AmountFacts, AmountFacts)>,
            LimitError,
        >(None),
        limit.ingress_rate is Some && limit.egress_rate is Some ==> {
            let ingress = limits::amount_of(
                limits::rate_captures(limit.ingress_rate->0@),
                |u: Seq<char>| limits::rate_multiplier(u),
            );
            let egress = limits::amount_of(
                limits::rate_captures(limit.egress_rate->0@),
                |u: Seq<char>| limits::rate_multiplier(u),
            );
            &&& rates_of(limit) is Ok <==> ingress is Ok && egress is Ok
            &&& rates_of(limit) matches Ok(r) ==> r == Some((ingress->Ok_0, egress->Ok_0))
        },
{
}

/// A pod that fails to start is tried three times in all, two seconds apart.
pub proof fn pods_are_tried_three_times()
    ensures
        retry_step(0) == RetryStep::RetryAfter(2_000_000_000),
        retry_step(1) == RetryStep::RetryAfter(2_000_000_000),
        retry_step(2) == RetryStep::GiveUp,
        MAX_RETRIES == 3,
{
}

} // verus!
