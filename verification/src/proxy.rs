//! The addresses behind each proxy.

use crate::config::CoDelConfig;
use crate::config::ServiceConfig;
use crate::container::naming;
use crate::container::scaling::codel;
use crate::container::scaling::codel::CoDelMetrics;
use crate::container::Container;
use crate::container::ContainerFacts;
use crate::container::ContainerMetadata;
use crate::container::ContainerPort;
use crate::container::ContainerPortMetadata;
use crate::container::InstanceMetadata;
use crate::container::InstanceStore;
use crate::stores;
use crate::text;
use rustc_hash::FxHashMap;
use rustc_hash::FxHashSet;
use std::collections::HashMap;
use vstd::prelude::*;
use vstd::string::*;

verus! {

/// The addresses behind each proxy, by the proxy's key.
pub type Backends = FxHashMap<String, FxHashSet<String>>;

/// An address and the proxy that it stands behind.
#[derive(Debug)]
pub struct Endpoint {
    pub proxy_key: String,
    pub address: String,
}

/// What an `Endpoint` says.
pub struct EndpointFacts {
    pub proxy_key: Seq<char>,
    pub address: Seq<char>,
}

impl View for Endpoint {
    type V = EndpointFacts;

    open spec fn view(&self) -> EndpointFacts {
        EndpointFacts { proxy_key: self.proxy_key@, address: self.address@ }
    }
}

/// Some endpoints, as they read.
pub open spec fn listing(list: Seq<Endpoint>) -> Seq<EndpointFacts> {
    list.map_values(|e: Endpoint| e@)
}

/// The endpoints of the ports at an address that have a proxy, in order.
pub open spec fn port_endpoints(
    service: Seq<char>,
    ip: Seq<char>,
    ports: Seq<ContainerPortMetadata>,
) -> Seq<EndpointFacts>
    decreases ports.len(),
{
    if ports.len() == 0 {
        Seq::empty()
    } else {
        let rest = port_endpoints(service, ip, ports.drop_last());
        match ports.last().node_port {
            Some(n) => rest.push(
                EndpointFacts {
                    proxy_key: naming::proxy_key(service, n),
                    address: naming::address(ip, ports.last().port),
                },
            ),
            None => rest,
        }
    }
}

/// The endpoints of some containers, in order.
pub open spec fn endpoints(
    service: Seq<char>,
    containers: Seq<ContainerFacts>,
) -> Seq<EndpointFacts>
    decreases containers.len(),
{
    if containers.len() == 0 {
        Seq::empty()
    } else {
        let c = containers.last();
        endpoints(service, containers.drop_last()) + port_endpoints(
            service,
            c.ip_address,
            c.ports,
        )
    }
}

/// Adds the endpoints of the ports at an address.
pub fn push_port_endpoints(
    out: &mut Vec<Endpoint>,
    service_name: &str,
    ip: &str,
    ports: &Vec<ContainerPortMetadata>,
)
    ensures
        listing(final(out)@) == listing(old(out)@) + port_endpoints(
            service_name@,
            ip@,
            ports@,
        ),
{
    let ghost before = listing(out@);
    let mut i: usize = 0;
    assert(ports@.take(0) =~= Seq::empty());
    assert(before + Seq::<EndpointFacts>::empty() =~= before);
    while i < ports.len()
        invariant
            i <= ports@.len(),
            listing(out@) == before + port_endpoints(
                service_name@,
                ip@,
                ports@.take(i as int),
            ),
        decreases ports@.len() - i,
    {
        let ghost so_far = out@;
        proof {
            assert(ports@.take(i + 1).drop_last() =~= ports@.take(i as int));
            assert(ports@.take(i + 1).last() == ports@[i as int]);
        }
        if let Some(n) = ports[i].node_port {
            let endpoint: Endpoint = Endpoint {
                proxy_key: naming::proxy_key_of(service_name, n),
                address: naming::address_of(ip, ports[i].port),
            };
            out.push(endpoint);
            assert(listing(out@) =~= listing(so_far).push(endpoint@));
            assert(before + port_endpoints(service_name@, ip@, ports@.take(i + 1)) =~= (before
                + port_endpoints(service_name@, ip@, ports@.take(i as int))).push(endpoint@));
        }
        i = i + 1;
    }
    assert(ports@.take(i as int) =~= ports@);
}

/// The containers, as they read.
pub open spec fn facts(containers: Seq<ContainerMetadata>) -> Seq<ContainerFacts> {
    containers.map_values(|c: ContainerMetadata| c@)
}

/// The endpoints of the containers of a pod.
pub fn pod_endpoints(service_name: &str, containers: &Vec<ContainerMetadata>) -> (r: Vec<Endpoint>)
    ensures
        listing(r@) == endpoints(service_name@, facts(containers@)),
{
    let mut r: Vec<Endpoint> = Vec::new();
    let mut i: usize = 0;
    let ghost all = facts(containers@);
    assert(all.take(0) =~= Seq::empty());
    assert(listing(r@) =~= Seq::empty());
    while i < containers.len()
        invariant
            i <= containers@.len(),
            all == facts(containers@),
            listing(r@) == endpoints(service_name@, all.take(i as int)),
        decreases containers@.len() - i,
    {
        proof {
            assert(all.take(i + 1).drop_last() =~= all.take(i as int));
            assert(all.take(i + 1).last() == containers@[i as int]@);
        }
        push_port_endpoints(
            &mut r,
            service_name,
            containers[i].ip_address.as_str(),
            &containers[i].ports,
        );
        i = i + 1;
    }
    assert(all.take(i as int) =~= all);
    r
}

/// The addresses behind a proxy; none where there is no such proxy.
pub open spec fn behind(b: Map<Seq<char>, FxHashSet<String>>, key: Seq<char>) -> Set<Seq<char>> {
    if b.contains_key(key) {
        stores::members(b[key])
    } else {
        Set::empty()
    }
}

/// The endpoint is in some list.
pub open spec fn has_endpoint(list: Seq<EndpointFacts>, key: Seq<char>, address: Seq<char>) -> bool {
    list.contains(EndpointFacts { proxy_key: key, address })
}

/// `after` is `before` with the endpoints added behind the proxies that exist.
pub open spec fn added(
    before: Map<Seq<char>, FxHashSet<String>>,
    after: Map<Seq<char>, FxHashSet<String>>,
    list: Seq<EndpointFacts>,
) -> bool {
    &&& after.dom() == before.dom()
    &&& forall|k: Seq<char>, a: Seq<char>|
        before.contains_key(k) ==> (#[trigger] behind(after, k).contains(a) <==> behind(before, k).contains(a)
            || has_endpoint(list, k, a))
}

/// `after` is `before` without the endpoints.
pub open spec fn removed(
    before: Map<Seq<char>, FxHashSet<String>>,
    after: Map<Seq<char>, FxHashSet<String>>,
    list: Seq<EndpointFacts>,
) -> bool {
    &&& after.dom() == before.dom()
    &&& forall|k: Seq<char>, a: Seq<char>|
        before.contains_key(k) ==> (#[trigger] behind(after, k).contains(a) <==> behind(before, k).contains(a)
            && !has_endpoint(list, k, a))
}

/// An endpoint in a longer list is in the shorter one or the one on top.
proof fn lemma_one_more(list: Seq<EndpointFacts>, i: int, key: Seq<char>, address: Seq<char>)
    requires
        0 <= i < list.len(),
    ensures
        has_endpoint(list.take(i + 1), key, address) == (has_endpoint(list.take(i), key, address) || (list[i].proxy_key
            == key && list[i].address == address)),
{
    let e = EndpointFacts { proxy_key: key, address };
    let (a, b) = (list.take(i), list.take(i + 1));
    assert(b[i] == list[i]);
    if a.contains(e) {
        let j = choose|j: int| 0 <= j < a.len() && a[j] == e;
        assert(b[j] == e);
    }
    if b.contains(e) {
        let j = choose|j: int| 0 <= j < b.len() && b[j] == e;
        if j < i {
            assert(a[j] == e);
        }
    }
}

/// Puts endpoints behind their proxies; an endpoint without a proxy is dropped.
pub fn add_endpoints(backends: &mut Backends, list: &Vec<Endpoint>)
    ensures
        added(
            stores::entries(*old(backends)),
            stores::entries(*final(backends)),
            listing(list@),
        ),
{
    let ghost before = stores::entries(*backends);
    let ghost all = listing(list@);
    let mut i: usize = 0;
    while i < list.len()
        invariant
            i <= list@.len(),
            all == listing(list@),
            added(before, stores::entries(*backends), all.take(i as int)),
        decreases list@.len() - i,
    {
        let ghost so_far = stores::entries(*backends);
        assert(all[i as int] == list@[i as int]@);
        if let Some(set) = stores::map_get_mut(backends, list[i].proxy_key.as_str()) {
            let _ = stores::set_insert(set, list[i].address.clone());
        }
        proof {
            let after = stores::entries(*backends);
            assert(after.dom() =~= before.dom());
            assert forall|k: Seq<char>, a: Seq<char>| before.contains_key(k) implies (#[trigger] behind(
                after,
                k,
            ).contains(a) <==> behind(before, k).contains(a) || has_endpoint(all.take(i + 1), k, a)) by {
                lemma_one_more(all, i as int, k, a);
                assert(behind(so_far, k).contains(a) <==> behind(before, k).contains(a) || has_endpoint(
                    all.take(i as int),
                    k,
                    a,
                ));
            }
        }
        i = i + 1;
    }
    assert(all.take(i as int) =~= all);
}

/// Takes endpoints away from behind their proxies.
pub fn remove_endpoints(backends: &mut Backends, list: &Vec<Endpoint>)
    ensures
        removed(
            stores::entries(*old(backends)),
            stores::entries(*final(backends)),
            listing(list@),
        ),
{
    let ghost before = stores::entries(*backends);
    let ghost all = listing(list@);
    let mut i: usize = 0;
    while i < list.len()
        invariant
            i <= list@.len(),
            all == listing(list@),
            removed(before, stores::entries(*backends), all.take(i as int)),
        decreases list@.len() - i,
    {
        let ghost so_far = stores::entries(*backends);
        assert(all[i as int] == list@[i as int]@);
        if let Some(set) = stores::map_get_mut(backends, list[i].proxy_key.as_str()) {
            let _ = stores::set_remove(set, list[i].address.as_str());
        }
        proof {
            let after = stores::entries(*backends);
            assert(after.dom() =~= before.dom());
            assert forall|k: Seq<char>, a: Seq<char>| before.contains_key(k) implies (#[trigger] behind(
                after,
                k,
            ).contains(a) <==> behind(before, k).contains(a) && !has_endpoint(all.take(i + 1), k, a)) by {
                lemma_one_more(all, i as int, k, a);
                assert(behind(so_far, k).contains(a) <==> behind(before, k).contains(a) && !has_endpoint(
                    all.take(i as int),
                    k,
                    a,
                ));
            }
        }
        i = i + 1;
    }
    assert(all.take(i as int) =~= all);
}

/// Taking away what was added leaves what there was, where none of it was there
/// before.
pub proof fn removal_undoes_addition(
    before: Map<Seq<char>, FxHashSet<String>>,
    between: Map<Seq<char>, FxHashSet<String>>,
    after: Map<Seq<char>, FxHashSet<String>>,
    list: Seq<EndpointFacts>,
    key: Seq<char>,
)
    requires
        added(before, between, list),
        removed(between, after, list),
        forall|k: Seq<char>, a: Seq<char>| has_endpoint(list, k, a) ==> !#[trigger] behind(before, k).contains(a),
    ensures
        behind(after, key) == behind(before, key),
{
    if before.contains_key(key) {
        assert forall|a: Seq<char>| behind(after, key).contains(a) <==> behind(before, key).contains(a) by {
            assert(behind(between, key).contains(a) <==> behind(before, key).contains(a) || has_endpoint(list, key, a));
        }
    }
    assert(behind(after, key) =~= behind(before, key));
}

/// The definition opens the port.
pub open spec fn opens(containers: Seq<Container>, node_port: u16) -> bool {
    exists|i: int, j: int|
        #![trigger entry(containers, i, j)]
        entry(containers, i, j) matches Some(p) && p.node_port == Some(node_port)
}

/// The `j`-th port of the `i`-th container.
pub open spec fn entry(containers: Seq<Container>, i: int, j: int) -> Option<ContainerPort> {
    if 0 <= i < containers.len() && containers[i].ports is Some && 0 <= j < containers[i].ports->0@.len() {
        Some(containers[i].ports->0@[j])
    } else {
        None
    }
}

/// Whether a port is in a list.
fn has_port(list: &Vec<u16>, port: u16) -> (r: bool)
    ensures
        r == list@.contains(port),
{
    let mut i: usize = 0;
    while i < list.len()
        invariant
            i <= list@.len(),
            forall|j: int| 0 <= j < i ==> list@[j] != port,
        decreases list@.len() - i,
    {
        if list[i] == port {
            assert(list@[i as int] == port);
            return true;
        }
        i = i + 1;
    }
    false
}

/// The ports that the proxies of a service listen on, each once.
pub fn node_ports(config: &ServiceConfig) -> (r: Vec<u16>)
    ensures
        r@.no_duplicates(),
        forall|n: u16| r@.contains(n) == opens(config.spec.containers@, n),
{
    let mut r: Vec<u16> = Vec::new();
    let containers: &Vec<Container> = &config.spec.containers;
    let mut i: usize = 0;
    let ghost all = containers@;
    while i < containers.len()
        invariant
            i <= containers@.len(),
            all == containers@,
            r@.no_duplicates(),
            forall|n: u16| #[trigger]
                r@.contains(n) ==> opens(all, n),
            forall|a: int, b: int|
                a < i ==> (#[trigger] entry(all, a, b) matches Some(p) ==> (p.node_port matches Some(n)
                    ==> r@.contains(n))),
        decreases containers@.len() - i,
    {
        if let Some(ports) = &containers[i].ports {
            let mut j: usize = 0;
            while j < ports.len()
                invariant
                    i < containers@.len(),
                    all == containers@,
                    all[i as int].ports == Some(*ports),
                    j <= ports@.len(),
                    r@.no_duplicates(),
                    forall|n: u16| #[trigger]
                        r@.contains(n) ==> opens(all, n),
                    forall|a: int, b: int|
                        a < i || (a == i && b < j) ==> (#[trigger] entry(all, a, b) matches Some(p) ==> (
                        p.node_port matches Some(n) ==> r@.contains(n))),
                decreases ports@.len() - j,
            {
                let ghost before = r@;
                assert(entry(all, i as int, j as int) == Some(ports@[j as int]));
                if let Some(n) = ports[j].node_port {
                    assert(opens(all, n));
                    if !has_port(&r, n) {
                        r.push(n);
                        proof {
                            assert(r@[before.len() as int] == n);
                            assert forall|m: u16| before.contains(m) implies r@.contains(m) by {
                                let k = choose|k: int| 0 <= k < before.len() && before[k] == m;
                                assert(r@[k] == m);
                            }
                            assert forall|m: u16| #[trigger] r@.contains(m) implies opens(all, m) by {
                                let k = choose|k: int| 0 <= k < r@.len() && r@[k] == m;
                                if k < before.len() {
                                    assert(before[k] == m);
                                    assert(before.contains(m));
                                }
                            }
                        }
                    }
                }
                j = j + 1;
            }
        }
        i = i + 1;
    }
    assert forall|n: u16| r@.contains(n) == opens(all, n) by {
        if opens(all, n) {
            let (a, b) = choose|a: int, b: int|
                #![trigger entry(all, a, b)]
                entry(all, a, b) matches Some(p) && p.node_port == Some(n);
            assert(entry(all, a, b) is Some);
        }
    }
    r
}

/// The pods of a service.
pub open spec fn pods_of(
    store: Map<Seq<char>, HashMap<u128, InstanceMetadata>>,
    service: Seq<char>,
) -> Map<u128, InstanceMetadata> {
    if store.contains_key(service) {
        store[service]@
    } else {
        Map::empty()
    }
}

/// Some pod of the service answers at the address for the proxy.
pub open spec fn serves(
    store: Map<Seq<char>, HashMap<u128, InstanceMetadata>>,
    service: Seq<char>,
    key: Seq<char>,
    address: Seq<char>,
) -> bool {
    exists|u: u128| #[trigger]
        pods_of(store, service).contains_key(u) && has_endpoint(
            endpoints(service, facts(pods_of(store, service)[u].containers@)),
            key,
            address,
        )
}

/// An endpoint of a joined list is in one of its parts.
proof fn lemma_joined(a: Seq<EndpointFacts>, b: Seq<EndpointFacts>, key: Seq<char>, address: Seq<char>)
    ensures
        has_endpoint(a + b, key, address) == (has_endpoint(a, key, address) || has_endpoint(b, key, address)),
{
    let e = EndpointFacts { proxy_key: key, address };
    if a.contains(e) {
        let j = choose|j: int| 0 <= j < a.len() && a[j] == e;
        assert((a + b)[j] == e);
    }
    if b.contains(e) {
        let j = choose|j: int| 0 <= j < b.len() && b[j] == e;
        assert((a + b)[a.len() + j] == e);
    }
    if (a + b).contains(e) {
        let j = choose|j: int| 0 <= j < (a + b).len() && (a + b)[j] == e;
        if j < a.len() {
            assert(a[j] == e);
        } else {
            assert(b[j - a.len()] == e);
        }
    }
}

/// The endpoints of all the pods of a service.
pub fn service_endpoints(store: &InstanceStore, service_name: &str) -> (r: Vec<Endpoint>)
    ensures
        forall|k: Seq<char>, a: Seq<char>| #[trigger]
            has_endpoint(listing(r@), k, a) == serves(
                stores::entries(*store),
                service_name@,
                k,
                a,
            ),
{
    let mut r: Vec<Endpoint> = Vec::new();
    let ghost pods = pods_of(stores::entries(*store), service_name@);
    let instances: &HashMap<u128, InstanceMetadata> = match stores::map_get(store, service_name) {
        Some(i) => i,
        None => {
            assert(listing(r@) =~= Seq::empty());
            return r;
        },
    };
    let keys: Vec<u128> = stores::id_keys(instances);
    let mut i: usize = 0;
    while i < keys.len()
        invariant
            i <= keys@.len(),
            pods == instances@,
            forall|j: int| 0 <= j < keys@.len() ==> pods.contains_key(#[trigger] keys@[j]),
            forall|k: Seq<char>, a: Seq<char>| #[trigger]
                has_endpoint(listing(r@), k, a) == exists|j: int|
                    0 <= j < i && has_endpoint(
                        endpoints(service_name@, facts(pods[#[trigger] keys@[j]].containers@)),
                        k,
                        a,
                    ),
        decreases keys@.len() - i,
    {
        let key: u128 = keys[i];
        assert(pods.contains_key(keys@[i as int]));
        let ghost before = listing(r@);
        if let Some(metadata) = instances.get(&key) {
            let mut more: Vec<Endpoint> = pod_endpoints(service_name, &metadata.containers);
            let ghost extra = listing(more@);
            r.append(&mut more);
            proof {
                let now = listing(r@);
                assert(now =~= before + extra);
                assert forall|k: Seq<char>, a: Seq<char>| #[trigger] has_endpoint(now, k, a) == exists|j: int|
                    0 <= j < i + 1 && has_endpoint(
                        endpoints(service_name@, facts(pods[#[trigger] keys@[j]].containers@)),
                        k,
                        a,
                    ) by {
                    lemma_joined(before, extra, k, a);
                    if has_endpoint(extra, k, a) {
                        assert(has_endpoint(
                            endpoints(service_name@, facts(pods[keys@[i as int]].containers@)),
                            k,
                            a,
                        ));
                    }
                    assert(has_endpoint(before, k, a) == exists|j: int|
                        0 <= j < i && has_endpoint(
                            endpoints(service_name@, facts(pods[#[trigger] keys@[j]].containers@)),
                            k,
                            a,
                        ));
                }
            }
        }
        i = i + 1;
    }
    proof {
        let store_view = stores::entries(*store);
        assert forall|k: Seq<char>, a: Seq<char>| #[trigger] has_endpoint(
            listing(r@),
            k,
            a,
        ) == serves(store_view, service_name@, k, a) by {
            if serves(store_view, service_name@, k, a) {
                let u = choose|u: u128| #[trigger]
                    pods.contains_key(u) && has_endpoint(
                        endpoints(service_name@, facts(pods[u].containers@)),
                        k,
                        a,
                    );
                assert(keys@.to_set().contains(u));
                let j = choose|j: int| 0 <= j < keys@.len() && keys@[j] == u;
                assert(has_endpoint(
                    endpoints(service_name@, facts(pods[keys@[j]].containers@)),
                    k,
                    a,
                ));
            }
            if has_endpoint(listing(r@), k, a) {
                let j = choose|j: int|
                    0 <= j < keys@.len() && has_endpoint(
                        endpoints(service_name@, facts(pods[#[trigger] keys@[j]].containers@)),
                        k,
                        a,
                    );
                assert(pods.contains_key(keys@[j]));
            }
        }
    }
    r
}

/// The key belongs to a proxy of the service.
pub open spec fn own_key(containers: Seq<Container>, service: Seq<char>, key: Seq<char>) -> bool {
    exists|n: u16| #[trigger] opens(containers, n) && key == naming::proxy_key(service, n)
}

/// No proxies yet.
pub fn new_backends() -> (r: Backends)
    ensures
        forall|k: Seq<char>| !stores::entries(r).contains_key(k),
{
    stores::map_new()
}

/// `after` is `before` with a proxy for each port that the service opens, and the
/// endpoints of the service behind them.
pub open spec fn proxied(
    before: Map<Seq<char>, FxHashSet<String>>,
    after: Map<Seq<char>, FxHashSet<String>>,
    containers: Seq<Container>,
    service: Seq<char>,
    list: Seq<EndpointFacts>,
) -> bool {
    &&& forall|k: Seq<char>| #[trigger]
        after.contains_key(k) == (before.contains_key(k) || own_key(containers, service, k))
    &&& forall|k: Seq<char>, a: Seq<char>| #[trigger]
        behind(after, k).contains(a) == (behind(before, k).contains(a) || (own_key(containers, service, k)
            && has_endpoint(list, k, a)))
}

/// Sees to it that each port that the service opens has a proxy, with the given
/// endpoints of the service behind it. The result lists the ports for which a
/// proxy is to be started.
pub fn run_proxy_for_service(
    backends: &mut Backends,
    service_name: &str,
    config: &ServiceConfig,
    resolved: &Vec<Endpoint>,
) -> (r: Vec<u16>)
    ensures
        r@.no_duplicates(),
        forall|n: u16|
            r@.contains(n) == (opens(config.spec.containers@, n) && !stores::entries(*old(backends)).contains_key(
                #[trigger] naming::proxy_key(service_name@, n),
            )),
        proxied(
            stores::entries(*old(backends)),
            stores::entries(*final(backends)),
            config.spec.containers@,
            service_name@,
            listing(resolved@),
        ),
{
    let ports: Vec<u16> = node_ports(config);
    let ghost before = stores::entries(*backends);
    let ghost c = config.spec.containers@;
    let ghost list = listing(resolved@);
    let mut r: Vec<u16> = Vec::new();
    let mut i: usize = 0;
    while i < ports.len()
        invariant
            i <= ports@.len(),
            ports@.no_duplicates(),
            forall|n: u16| ports@.contains(n) == opens(c, n),
            r@.no_duplicates(),
            forall|n: u16| #[trigger]
                r@.contains(n) == (ports@.take(i as int).contains(n) && !before.contains_key(
                    naming::proxy_key(service_name@, n),
                )),
            forall|k: Seq<char>| #[trigger]
                stores::entries(*backends).contains_key(k) == (before.contains_key(k) || exists|j: int|
                    0 <= j < i && k == naming::proxy_key(service_name@, #[trigger] ports@[j])),
            forall|k: Seq<char>| #[trigger] behind(stores::entries(*backends), k) == behind(before, k),
        decreases ports@.len() - i,
    {
        let port: u16 = ports[i];
        let ghost so_far = stores::entries(*backends);
        let ghost started = r@;
        let key: String = naming::proxy_key_of(service_name, port);
        proof {
            assert(ports@.take(i + 1) =~= ports@.take(i as int).push(port));
            assert forall|n: u16| ports@.take(i + 1).contains(n) == (ports@.take(i as int).contains(n) || n == port) by {
                let (a, b) = (ports@.take(i as int), ports@.take(i + 1));
                assert(b[i as int] == port);
                if a.contains(n) {
                    let j = choose|j: int| 0 <= j < a.len() && a[j] == n;
                    assert(b[j] == n);
                }
                if b.contains(n) && n != port {
                    let j = choose|j: int| 0 <= j < b.len() && b[j] == n;
                    assert(a[j] == n);
                }
            }
            assert(!ports@.take(i as int).contains(port)) by {
                if ports@.take(i as int).contains(port) {
                    let j = choose|j: int| 0 <= j < i && ports@[j] == port;
                    assert(ports@[j] == ports@[i as int]);
                }
            }
            assert(so_far.contains_key(key@) == before.contains_key(key@)) by {
                if exists|j: int| 0 <= j < i && key@ == naming::proxy_key(service_name@, #[trigger] ports@[j]) {
                    let j = choose|j: int| 0 <= j < i && key@ == naming::proxy_key(service_name@, #[trigger] ports@[j]);
                    lemma_same_service_keys(service_name@, port, ports@[j]);
                    assert(ports@.take(i as int)[j] == port);
                    assert(false);
                }
            }
        }
        if stores::map_get(backends, key.as_str()).is_none() {
            let _ = stores::map_insert(backends, key, stores::set_new());
            r.push(port);
            proof {
                assert(r@[started.len() as int] == port);
                assert(!started.contains(port));
                assert forall|n: u16| #[trigger] r@.contains(n) == (started.contains(n) || n == port) by {
                    if started.contains(n) {
                        let j = choose|j: int| 0 <= j < started.len() && started[j] == n;
                        assert(r@[j] == n);
                    }
                    if r@.contains(n) && n != port {
                        let j = choose|j: int| 0 <= j < r@.len() && r@[j] == n;
                        assert(started[j] == n);
                    }
                }
            }
        }
        proof {
            let now = stores::entries(*backends);
            assert forall|k: Seq<char>| #[trigger] now.contains_key(k) == (before.contains_key(k) || exists|j: int|
                0 <= j < i + 1 && k == naming::proxy_key(service_name@, #[trigger] ports@[j])) by {
                if k == naming::proxy_key(service_name@, port) {
                    assert(k == naming::proxy_key(service_name@, ports@[i as int]));
                }
                assert(so_far.contains_key(k) == (before.contains_key(k) || exists|j: int|
                    0 <= j < i && k == naming::proxy_key(service_name@, #[trigger] ports@[j])));
            }
            assert forall|k: Seq<char>| #[trigger] behind(now, k) == behind(before, k) by {
                assert(behind(so_far, k) == behind(before, k));
                assert(behind(now, k) =~= behind(before, k));
            }
        }
        i = i + 1;
    }
    assert(ports@.take(i as int) =~= ports@);
    let ghost prepared = stores::entries(*backends);
    let mut chosen: Vec<Endpoint> = Vec::new();
    let mut e: usize = 0;
    while e < resolved.len()
        invariant
            e <= resolved@.len(),
            list == listing(resolved@),
            forall|n: u16| ports@.contains(n) == opens(c, n),
            forall|k: Seq<char>, a: Seq<char>| #[trigger]
                has_endpoint(listing(chosen@), k, a) == (own_key(c, service_name@, k)
                    && has_endpoint(list.take(e as int), k, a)),
        decreases resolved@.len() - e,
    {
        let endpoint: &Endpoint = &resolved[e];
        let ghost before_chosen = listing(chosen@);
        assert(list[e as int] == endpoint@);
        let mut own: bool = false;
        let mut p: usize = 0;
        while p < ports.len() && !own
            invariant
                p <= ports@.len(),
                forall|n: u16| ports@.contains(n) == opens(c, n),
                own ==> own_key(c, service_name@, endpoint.proxy_key@),
                !own ==> forall|j: int|
                    0 <= j < p ==> endpoint.proxy_key@ != naming::proxy_key(service_name@, #[trigger] ports@[j]),
            decreases ports@.len() - p,
        {
            assert(ports@.contains(ports@[p as int]));
            assert(opens(c, ports@[p as int]));
            let key: String = naming::proxy_key_of(service_name, ports[p]);
            if key == endpoint.proxy_key {
                own = true;
            }
            p = p + 1;
        }
        proof {
            if !own && own_key(c, service_name@, endpoint.proxy_key@) {
                let n = choose|n: u16| #[trigger]
                    opens(c, n) && endpoint.proxy_key@ == naming::proxy_key(service_name@, n);
                assert(ports@.contains(n));
                let j = choose|j: int| 0 <= j < ports@.len() && ports@[j] == n;
                assert(endpoint.proxy_key@ != naming::proxy_key(service_name@, ports@[j]));
            }
        }
        if own {
            let copy: Endpoint = Endpoint {
                proxy_key: endpoint.proxy_key.clone(),
                address: endpoint.address.clone(),
            };
            chosen.push(copy);
            assert(listing(chosen@) =~= before_chosen + seq![copy@]);
        }
        proof {
            let now = listing(chosen@);
            assert forall|k: Seq<char>, a: Seq<char>| #[trigger] has_endpoint(now, k, a) == (own_key(
                c,
                service_name@,
                k,
            ) && has_endpoint(list.take(e + 1), k, a)) by {
                lemma_one_more(list, e as int, k, a);
                assert(has_endpoint(before_chosen, k, a) == (own_key(c, service_name@, k) && has_endpoint(
                    list.take(e as int),
                    k,
                    a,
                )));
                if own {
                    lemma_joined(before_chosen, seq![endpoint@], k, a);
                    assert(seq![endpoint@][0] == endpoint@);
                    assert(has_endpoint(seq![endpoint@], k, a) == (endpoint.proxy_key@ == k && endpoint.address@ == a));
                }
            }
        }
        e = e + 1;
    }
    assert(list.take(e as int) =~= list);
    add_endpoints(backends, &chosen);
    proof {
        let after = stores::entries(*backends);
        assert forall|k: Seq<char>| #[trigger] after.contains_key(k) == (before.contains_key(k) || own_key(
            c,
            service_name@,
            k,
        )) by {
            assert(after.dom().contains(k) == prepared.dom().contains(k));
            if own_key(c, service_name@, k) {
                let n = choose|n: u16| #[trigger] opens(c, n) && k == naming::proxy_key(service_name@, n);
                assert(ports@.contains(n));
                let j = choose|j: int| 0 <= j < ports@.len() && ports@[j] == n;
                assert(k == naming::proxy_key(service_name@, ports@[j]));
            }
            if prepared.contains_key(k) && !before.contains_key(k) {
                let j = choose|j: int|
                    0 <= j < ports@.len() && k == naming::proxy_key(service_name@, #[trigger] ports@[j]);
                assert(ports@.contains(ports@[j]));
                assert(opens(c, ports@[j]));
            }
        }
        assert forall|k: Seq<char>, a: Seq<char>| #[trigger] behind(after, k).contains(a) == (behind(
            before,
            k,
        ).contains(a) || (own_key(c, service_name@, k) && has_endpoint(list, k, a))) by {
            assert(behind(prepared, k) == behind(before, k));
            assert(has_endpoint(listing(chosen@), k, a) == (own_key(c, service_name@, k)
                && has_endpoint(list, k, a)));
            if prepared.contains_key(k) {
                assert(behind(after, k).contains(a) <==> behind(prepared, k).contains(a) || has_endpoint(
                    listing(chosen@),
                    k,
                    a,
                ));
            } else {
                assert(!after.contains_key(k));
                assert(!own_key(c, service_name@, k));
            }
        }
        assert forall|n: u16|
            r@.contains(n) == (opens(c, n) && !before.contains_key(#[trigger] naming::proxy_key(service_name@, n))) by {
            assert(r@.contains(n) == (ports@.contains(n) && !before.contains_key(naming::proxy_key(service_name@, n))));
        }
    }
    r
}

/// Proxies of one service share a key only on one port.
proof fn lemma_same_service_keys(service: Seq<char>, p: u16, q: u16)
    requires
        naming::proxy_key(service, p) == naming::proxy_key(service, q),
    ensures
        p == q,
{
    let (a, b) = (naming::proxy_key(service, p), naming::proxy_key(service, q));
    let n = (service + "__"@).len() as int;
    assert(a.skip(n) =~= text::decimal(p as nat));
    assert(b.skip(n) =~= text::decimal(q as nat));
    text::numerals_are_distinct(p as nat, q as nat);
}

/// The endpoint of a port with a proxy is among those of its address.
proof fn lemma_port_listed(service: Seq<char>, ip: Seq<char>, ports: Seq<ContainerPortMetadata>, p: int, node_port: u16)
    requires
        0 <= p < ports.len(),
        ports[p].node_port == Some(node_port),
    ensures
        has_endpoint(
            port_endpoints(service, ip, ports),
            naming::proxy_key(service, node_port),
            naming::address(ip, ports[p].port),
        ),
    decreases ports.len(),
{
    let wanted = EndpointFacts {
        proxy_key: naming::proxy_key(service, node_port),
        address: naming::address(ip, ports[p].port),
    };
    let rest = port_endpoints(service, ip, ports.drop_last());
    let all = port_endpoints(service, ip, ports);
    if p < ports.len() - 1 {
        lemma_port_listed(service, ip, ports.drop_last(), p, node_port);
        let i = choose|i: int| 0 <= i < rest.len() && rest[i] == wanted;
        assert(all[i] == wanted);
    } else {
        assert(all[rest.len() as int] == wanted);
    }
}

/// The endpoint of a port with a proxy is among those of its pod.
pub(crate) proof fn lemma_endpoint_listed(service: Seq<char>, containers: Seq<ContainerFacts>, c: int, p: int, node_port: u16)
    requires
        0 <= c < containers.len(),
        0 <= p < containers[c].ports.len(),
        containers[c].ports[p].node_port == Some(node_port),
    ensures
        has_endpoint(
            endpoints(service, containers),
            naming::proxy_key(service, node_port),
            naming::address(containers[c].ip_address, containers[c].ports[p].port),
        ),
    decreases containers.len(),
{
    let wanted = EndpointFacts {
        proxy_key: naming::proxy_key(service, node_port),
        address: naming::address(containers[c].ip_address, containers[c].ports[p].port),
    };
    let rest = endpoints(service, containers.drop_last());
    let last = port_endpoints(service, containers.last().ip_address, containers.last().ports);
    let all = endpoints(service, containers);
    assert(all == rest + last);
    if c < containers.len() - 1 {
        lemma_endpoint_listed(service, containers.drop_last(), c, p, node_port);
        let i = choose|i: int| 0 <= i < rest.len() && rest[i] == wanted;
        assert(all[i] == wanted);
    } else {
        lemma_port_listed(service, containers[c].ip_address, containers[c].ports, p, node_port);
        let i = choose|i: int| 0 <= i < last.len() && last[i] == wanted;
        assert(all[rest.len() + i] == wanted);
    }
}

/// A pod whose endpoints were put behind the proxies is reached through the proxy
/// of each of its ports that has one, as far as the proxy runs.
pub proof fn pods_join_the_proxies_of_their_ports(
    before: Map<Seq<char>, FxHashSet<String>>,
    after: Map<Seq<char>, FxHashSet<String>>,
    service: Seq<char>,
    containers: Seq<ContainerFacts>,
    c: int,
    p: int,
    node_port: u16,
)
    requires
        added(before, after, endpoints(service, containers)),
        0 <= c < containers.len(),
        0 <= p < containers[c].ports.len(),
        containers[c].ports[p].node_port == Some(node_port),
        before.contains_key(naming::proxy_key(service, node_port)),
    ensures
        behind(after, naming::proxy_key(service, node_port)).contains(
            naming::address(containers[c].ip_address, containers[c].ports[p].port),
        ),
{
    lemma_endpoint_listed(service, containers, c, p, node_port);
}

/// A pod whose endpoints were taken away is behind the proxy of none of its ports.
pub proof fn pods_leave_the_proxies_of_their_ports(
    before: Map<Seq<char>, FxHashSet<String>>,
    after: Map<Seq<char>, FxHashSet<String>>,
    service: Seq<char>,
    containers: Seq<ContainerFacts>,
    c: int,
    p: int,
    node_port: u16,
)
    requires
        removed(before, after, endpoints(service, containers)),
        0 <= c < containers.len(),
        0 <= p < containers[c].ports.len(),
        containers[c].ports[p].node_port == Some(node_port),
    ensures
        !behind(after, naming::proxy_key(service, node_port)).contains(
            naming::address(containers[c].ip_address, containers[c].ports[p].port),
        ),
{
    lemma_endpoint_listed(service, containers, c, p, node_port);
    let key = naming::proxy_key(service, node_port);
    if before.contains_key(key) {
        assert(!behind(after, key).contains(naming::address(containers[c].ip_address, containers[c].ports[p].port)));
    } else {
        assert(!after.contains_key(key));
    }
}

/// Running the proxies of a service again changes nothing: no proxy is started and
/// none gets another address.
pub proof fn running_the_proxies_again_changes_nothing(
    before: Map<Seq<char>, FxHashSet<String>>,
    between: Map<Seq<char>, FxHashSet<String>>,
    after: Map<Seq<char>, FxHashSet<String>>,
    containers: Seq<Container>,
    service: Seq<char>,
    list: Seq<EndpointFacts>,
    node_port: u16,
    key: Seq<char>,
)
    requires
        proxied(before, between, containers, service, list),
        proxied(between, after, containers, service, list),
    ensures
        opens(containers, node_port) ==> between.contains_key(naming::proxy_key(service, node_port)),
        after.contains_key(key) == between.contains_key(key),
        behind(after, key) == behind(between, key),
{
    assert forall|a: Seq<char>| behind(after, key).contains(a) == behind(between, key).contains(a) by {
        assert(behind(after, key).contains(a) == (behind(between, key).contains(a) || (own_key(
            containers,
            service,
            key,
        ) && has_endpoint(list, key, a))));
        assert(behind(between, key).contains(a) == (behind(before, key).contains(a) || (own_key(
            containers,
            service,
            key,
        ) && has_endpoint(list, key, a))));
    }
    assert(behind(after, key) =~= behind(between, key));
}

/// The status to turn a request away with; nothing where it may pass.
pub open spec fn rejection(config: CoDelConfig, c: codel::CoDelState, now: u128) -> Option<u16> {
    if c.rejecting(now) {
        config.overload_status_code
    } else {
        None
    }
}

/// The samples after a response, and whether a pod is to be added.
pub open spec fn responded(
    c: codel::CoDelState,
    total_time: u128,
    recorded_at: u128,
    checked_at: u128,
) -> (codel::CoDelState, bool) {
    let sampled = c.sampled(total_time, recorded_at);
    (sampled.judged(checked_at), sampled.scale_due(checked_at))
}

/// The status to turn a request away with; nothing where it may pass.
pub fn upstream_rejection(config: &CoDelConfig, metrics: &CoDelMetrics, now: u128) -> (r: Option<u16>)
    ensures
        r == (if metrics@.rejecting(now) {
            config.overload_status_code
        } else {
            None
        }),
        r == rejection(*config, metrics@, now),
{
    if metrics.should_reject(now) {
        config.overload_status_code
    } else {
        None
    }
}

/// Takes in how long a request took. The result says whether to add a pod.
pub fn response_filter(metrics: &mut CoDelMetrics, total_time: u128, recorded_at: u128, checked_at: u128) -> (r: bool)
    ensures
        ({
            let sampled = old(metrics)@.sampled(total_time, recorded_at);
            &&& r == sampled.scale_due(checked_at)
            &&& final(metrics)@ == sampled.judged(checked_at)
            &&& (final(metrics)@, r) == responded(old(metrics)@, total_time, recorded_at, checked_at)
        }),
{
    metrics.record_sojourn(total_time, recorded_at);
    metrics.check_state(checked_at).is_some()
}

/// The endpoint leads from the proxy of the service on the node port of an entry to
/// the container port of that entry, at the address of its container.
pub open spec fn leads(
    service: Seq<char>,
    ip: Seq<char>,
    p: ContainerPortMetadata,
    key: Seq<char>,
    address: Seq<char>,
) -> bool {
    &&& p.node_port is Some
    &&& key == service + "__"@ + text::decimal(p.node_port->0 as nat)
    &&& address == ip + ":"@ + text::decimal(p.port as nat)
}

/// The endpoints of an address are those of its entries with a node port, one for
/// each, in order.
proof fn lemma_port_endpoints(service: Seq<char>, ip: Seq<char>, ports: Seq<ContainerPortMetadata>)
    ensures
        port_endpoints(service, ip, ports).len() == ports.filter(
            |p: ContainerPortMetadata| p.node_port is Some,
        ).len(),
        forall|i: int|
            0 <= i < port_endpoints(service, ip, ports).len() ==> leads(
                service,
                ip,
                ports.filter(|p: ContainerPortMetadata| p.node_port is Some)[i],
                (#[trigger] port_endpoints(service, ip, ports)[i]).proxy_key,
                port_endpoints(service, ip, ports)[i].address,
            ),
    decreases ports.len(),
{
    reveal(Seq::filter);
    if ports.len() > 0 {
        let f = |p: ContainerPortMetadata| p.node_port is Some;
        let rest = ports.drop_last();
        lemma_port_endpoints(service, ip, rest);
        let (all, some) = (port_endpoints(service, ip, ports), port_endpoints(service, ip, rest));
        assert forall|i: int| 0 <= i < all.len() implies leads(
            service,
            ip,
            ports.filter(f)[i],
            (#[trigger] all[i]).proxy_key,
            all[i].address,
        ) by {
            if i < some.len() {
                assert(all[i] == some[i]);
                assert(ports.filter(f)[i] == rest.filter(f)[i]);
            }
        }
    }
}

/// A container has one endpoint for each of its port entries with a node port, in
/// their order, and no others. It leads from the node port to the container port;
/// a target port plays no part.
pub proof fn endpoints_are_those_of_the_node_ports(
    service: Seq<char>,
    ip: Seq<char>,
    ports: Seq<ContainerPortMetadata>,
    i: int,
)
    ensures
        ({
            let open = ports.filter(|p: ContainerPortMetadata| p.node_port is Some);
            let list = port_endpoints(service, ip, ports);
            &&& list.len() == open.len()
            &&& 0 <= i < list.len() ==> leads(service, ip, open[i], list[i].proxy_key, list[i].address)
        }),
{
    lemma_port_endpoints(service, ip, ports);
}

/// Two lists of port entries that differ at most in their target ports have the
/// same endpoints.
pub proof fn target_ports_play_no_part(
    service: Seq<char>,
    ip: Seq<char>,
    a: Seq<ContainerPortMetadata>,
    b: Seq<ContainerPortMetadata>,
)
    requires
        a.len() == b.len(),
        forall|i: int|
            0 <= i < a.len() ==> (#[trigger] a[i]).port == b[i].port && a[i].node_port == b[i].node_port,
    ensures
        port_endpoints(service, ip, a) == port_endpoints(service, ip, b),
    decreases a.len(),
{
    if a.len() > 0 {
        let (x, y) = (a.drop_last(), b.drop_last());
        assert forall|i: int| 0 <= i < x.len() implies (#[trigger] x[i]).port == y[i].port && x[i].node_port
            == y[i].node_port by {
            assert(x[i] == a[i] && y[i] == b[i]);
        }
        target_ports_play_no_part(service, ip, x, y);
        assert(a[a.len() - 1].port == b[b.len() - 1].port);
    }
}

/// The endpoints of containers are those of each of them, one after the other.
pub proof fn endpoints_join(service: Seq<char>, a: Seq<ContainerFacts>, b: Seq<ContainerFacts>, c: ContainerFacts)
    ensures
        endpoints(service, a + b) == endpoints(service, a) + endpoints(service, b),
        endpoints(service, seq![c]) == port_endpoints(service, c.ip_address, c.ports),
        endpoints(service, Seq::empty()) == Seq::<EndpointFacts>::empty(),
    decreases b.len(),
{
    assert(seq![c].drop_last() =~= Seq::empty());
    assert(endpoints(service, Seq::<ContainerFacts>::empty()) =~= Seq::empty());
    assert(seq![c].last() == c);
    assert(endpoints(service, seq![c]) =~= port_endpoints(service, c.ip_address, c.ports));
    if b.len() == 0 {
        assert(a + b =~= a);
        assert(endpoints(service, a) + endpoints(service, b) =~= endpoints(service, a));
    } else {
        assert((a + b).drop_last() =~= a + b.drop_last());
        assert((a + b).last() == b.last());
        endpoints_join(service, a, b.drop_last(), c);
        assert(endpoints(service, a + b) =~= endpoints(service, a) + endpoints(service, b));
    }
}

/// Every endpoint of a pod comes from a port entry of one of its containers: it
/// leads from the node port of the entry to its container port, at the address of
/// that container.
pub proof fn endpoints_come_from_port_entries(
    service: Seq<char>,
    containers: Seq<ContainerFacts>,
    key: Seq<char>,
    address: Seq<char>,
) -> (at: (int, int))
    requires
        has_endpoint(endpoints(service, containers), key, address),
    ensures
        0 <= at.0 < containers.len(),
        0 <= at.1 < containers[at.0].ports.len(),
        leads(service, containers[at.0].ip_address, containers[at.0].ports[at.1], key, address),
    decreases containers.len(),
{
    let wanted = EndpointFacts { proxy_key: key, address };
    let rest = endpoints(service, containers.drop_last());
    let c = containers.last();
    let last = port_endpoints(service, c.ip_address, c.ports);
    let all = endpoints(service, containers);
    assert(all == rest + last);
    let i = choose|i: int| 0 <= i < all.len() && all[i] == wanted;
    if i < rest.len() {
        assert(rest[i] == wanted);
        let at = endpoints_come_from_port_entries(service, containers.drop_last(), key, address);
        assert(containers[at.0] == containers.drop_last()[at.0]);
        at
    } else {
        lemma_port_endpoints(service, c.ip_address, c.ports);
        assert(last[i - rest.len()] == wanted);
        let f = |p: ContainerPortMetadata| p.node_port is Some;
        let open = c.ports.filter(f);
        let p = open[i - rest.len()];
        assert(c.ports.contains(p)) by {
            lemma_filter_from(c.ports, f, i - rest.len());
        }
        let j = choose|j: int| 0 <= j < c.ports.len() && c.ports[j] == p;
        (containers.len() - 1, j)
    }
}

/// What a filter keeps was there.
proof fn lemma_filter_from<A>(s: Seq<A>, f: spec_fn(A) -> bool, i: int)
    requires
        0 <= i < s.filter(f).len(),
    ensures
        s.contains(s.filter(f)[i]),
    decreases s.len(),
{
    reveal(Seq::filter);
    if s.len() > 0 {
        let rest = s.drop_last();
        if i < rest.filter(f).len() {
            lemma_filter_from(rest, f, i);
            let j = choose|j: int| 0 <= j < rest.len() && rest[j] == rest.filter(f)[i];
            assert(s[j] == rest[j]);
            assert(s.filter(f)[i] == rest.filter(f)[i]);
        } else {
            assert(s[s.len() - 1] == s.last());
        }
    }
}

/// A node port is opened exactly by a port entry of a container that has it.
pub proof fn node_ports_are_opened_by_entries(containers: Seq<Container>, node_port: u16)
    ensures
        opens(containers, node_port) <==> exists|i: int, j: int|
            0 <= i < containers.len() && containers[i].ports is Some && 0 <= j < containers[i].ports->0@.len()
                && (#[trigger] containers[i].ports->0@[j]).node_port == Some(node_port),
{
    if opens(containers, node_port) {
        let (i, j) = choose|i: int, j: int|
            #![trigger entry(containers, i, j)]
            entry(containers, i, j) matches Some(p) && p.node_port == Some(node_port);
        assert(containers[i].ports->0@[j].node_port == Some(node_port));
    }
    if exists|i: int, j: int|
        0 <= i < containers.len() && containers[i].ports is Some && 0 <= j < containers[i].ports->0@.len() && (
        #[trigger] containers[i].ports->0@[j]).node_port == Some(node_port) {
        let (i, j) = choose|i: int, j: int|
            0 <= i < containers.len() && containers[i].ports is Some && 0 <= j < containers[i].ports->0@.len() && (
            #[trigger] containers[i].ports->0@[j]).node_port == Some(node_port);
        assert(entry(containers, i, j) is Some);
    }
}

/// Once the proxies of a service were run on the endpoints of its pods, there is a
/// proxy on each node port that the definition opens, and behind it are the pods'
/// containers with that node port, each at its container port. Nothing else has come
/// behind any proxy, nothing has gone, and no other proxy has started.
pub proof fn proxies_lead_to_the_pods(
    before: Map<Seq<char>, FxHashSet<String>>,
    after: Map<Seq<char>, FxHashSet<String>>,
    containers: Seq<Container>,
    service: Seq<char>,
    list: Seq<EndpointFacts>,
    store: Map<Seq<char>, HashMap<u128, InstanceMetadata>>,
    u: u128,
    c: int,
    p: int,
    node_port: u16,
    key: Seq<char>,
    address: Seq<char>,
)
    requires
        proxied(before, after, containers, service, list),
        forall|k: Seq<char>, a: Seq<char>| #[trigger] has_endpoint(list, k, a) == serves(store, service, k, a),
    ensures
        opens(containers, node_port) ==> after.contains_key(service + "__"@ + text::decimal(node_port as nat)),
        ({
            let pods = store[service]@;
            store.contains_key(service) && pods.contains_key(u) && 0 <= c < pods[u].containers@.len() && 0 <= p
                < pods[u].containers@[c].ports@.len() && pods[u].containers@[c].ports@[p].node_port == Some(node_port)
                && opens(containers, node_port) ==> behind(
                after,
                service + "__"@ + text::decimal(node_port as nat),
            ).contains(
                pods[u].containers@[c].ip_address@ + ":"@ + text::decimal(pods[u].containers@[c].ports@[p].port as nat),
            )
        }),
        behind(before, key).contains(address) ==> behind(after, key).contains(address),
        behind(after, key).contains(address) && !behind(before, key).contains(address) ==> serves(
            store,
            service,
            key,
            address,
        ),
        before.contains_key(key) ==> after.contains_key(key),
        after.contains_key(key) && !before.contains_key(key) ==> exists|n: u16| #[trigger]
            opens(containers, n) && key == service + "__"@ + text::decimal(n as nat),
{
    let own = naming::proxy_key(service, node_port);
    if opens(containers, node_port) {
        assert(own_key(containers, service, own));
        assert(after.contains_key(own) == (before.contains_key(own) || own_key(containers, service, own)));
    }
    let pods = store[service]@;
    if store.contains_key(service) && pods.contains_key(u) && 0 <= c < pods[u].containers@.len() && 0 <= p
        < pods[u].containers@[c].ports@.len() && pods[u].containers@[c].ports@[p].node_port == Some(node_port)
        && opens(containers, node_port) {
        let all = facts(pods[u].containers@);
        assert(all[c] == pods[u].containers@[c]@);
        lemma_endpoint_listed(service, all, c, p, node_port);
        let a = naming::address(all[c].ip_address, all[c].ports[p].port);
        assert(pods_of(store, service).contains_key(u));
        assert(serves(store, service, own, a));
        assert(has_endpoint(list, own, a));
        assert(behind(after, own).contains(a) == (behind(before, own).contains(a) || (own_key(containers, service, own)
            && has_endpoint(list, own, a))));
    }
    assert(behind(after, key).contains(address) == (behind(before, key).contains(address) || (own_key(
        containers,
        service,
        key,
    ) && has_endpoint(list, key, address))));
    assert(has_endpoint(list, key, address) == serves(store, service, key, address));
    assert(after.contains_key(key) == (before.contains_key(key) || own_key(containers, service, key)));
}

/// An endpoint serves a service exactly where it leads to a port entry of a
/// container of one of its pods.
pub proof fn services_are_served_by_their_pods(
    store: Map<Seq<char>, HashMap<u128, InstanceMetadata>>,
    service: Seq<char>,
    key: Seq<char>,
    address: Seq<char>,
)
    ensures
        serves(store, service, key, address) <==> exists|u: u128, c: int, p: int|
            #![trigger store[service]@[u].containers@[c].ports@[p]]
            store.contains_key(service) && store[service]@.contains_key(u) && 0 <= c
                < store[service]@[u].containers@.len() && 0 <= p < store[service]@[u].containers@[c].ports@.len()
                && leads(
                service,
                store[service]@[u].containers@[c].ip_address@,
                store[service]@[u].containers@[c].ports@[p],
                key,
                address,
            ),
{
    if serves(store, service, key, address) {
        let u = choose|u: u128| #[trigger]
            pods_of(store, service).contains_key(u) && has_endpoint(
                endpoints(service, facts(pods_of(store, service)[u].containers@)),
                key,
                address,
            );
        let all = facts(pods_of(store, service)[u].containers@);
        let at = endpoints_come_from_port_entries(service, all, key, address);
        assert(all[at.0] == store[service]@[u].containers@[at.0]@);
        assert(leads(
            service,
            store[service]@[u].containers@[at.0].ip_address@,
            store[service]@[u].containers@[at.0].ports@[at.1],
            key,
            address,
        ));
    }
    if exists|u: u128, c: int, p: int|
        #![trigger store[service]@[u].containers@[c].ports@[p]]
        store.contains_key(service) && store[service]@.contains_key(u) && 0 <= c < store[service]@[u].containers@.len()
            && 0 <= p < store[service]@[u].containers@[c].ports@.len() && leads(
            service,
            store[service]@[u].containers@[c].ip_address@,
            store[service]@[u].containers@[c].ports@[p],
            key,
            address,
        ) {
        let (u, c, p) = choose|u: u128, c: int, p: int|
            #![trigger store[service]@[u].containers@[c].ports@[p]]
            store.contains_key(service) && store[service]@.contains_key(u) && 0 <= c
                < store[service]@[u].containers@.len() && 0 <= p < store[service]@[u].containers@[c].ports@.len()
                && leads(
                service,
                store[service]@[u].containers@[c].ip_address@,
                store[service]@[u].containers@[c].ports@[p],
                key,
                address,
            );
        let all = facts(store[service]@[u].containers@);
        assert(all[c] == store[service]@[u].containers@[c]@);
        lemma_endpoint_listed(service, all, c, p, all[c].ports[p].node_port->0);
        assert(pods_of(store, service).contains_key(u));
    }
}

/// Adding endpoints puts each of them behind its proxy, if that runs, and nothing
/// else; taking them away takes each of them, and nothing else. No proxy comes or
/// goes either way.
pub proof fn endpoints_alone_come_and_go(
    before: Map<Seq<char>, FxHashSet<String>>,
    after: Map<Seq<char>, FxHashSet<String>>,
    list: Seq<EndpointFacts>,
    key: Seq<char>,
    address: Seq<char>,
)
    requires
        added(before, after, list) || removed(before, after, list),
    ensures
        after.contains_key(key) == before.contains_key(key),
        added(before, after, list) ==> {
            let listed = exists|i: int|
                0 <= i < list.len() && (#[trigger] list[i]).proxy_key == key && list[i].address == address;
            behind(after, key).contains(address) == (behind(before, key).contains(address) || (before.contains_key(key)
                && listed))
        },
        removed(before, after, list) ==> {
            let listed = exists|i: int|
                0 <= i < list.len() && (#[trigger] list[i]).proxy_key == key && list[i].address == address;
            behind(after, key).contains(address) == (behind(before, key).contains(address) && !listed)
        },
{
    let wanted = EndpointFacts { proxy_key: key, address };
    assert(after.dom().contains(key) == before.dom().contains(key));
    if has_endpoint(list, key, address) {
        let i = choose|i: int| 0 <= i < list.len() && list[i] == wanted;
        assert(list[i].proxy_key == key);
    }
    if exists|i: int| 0 <= i < list.len() && (#[trigger] list[i]).proxy_key == key && list[i].address == address {
        let i = choose|i: int|
            0 <= i < list.len() && (#[trigger] list[i]).proxy_key == key && list[i].address == address;
        assert(list[i] == wanted);
    }
}

/// A request is turned away with the status of the definition exactly while there are at
/// least ten samples, some of them taken within the interval, and each of those took
/// longer than the target; whether latency was judged before makes no difference.
pub proof fn overloaded_services_turn_requests_away(
    config: CoDelConfig,
    c: codel::CoDelState,
    now: u128,
    judged_at: u128,
)
    ensures
        ({
            let recent = codel::taken_within(c.samples, now, c.config.interval);
            let overloaded = c.samples.len() >= 10 && recent.len() > 0 && forall|i: int| #[trigger]
                recent.contains(i) ==> c.samples[i].1 > c.config.target;
            &&& overloaded ==> rejection(config, c, now) == config.overload_status_code
            &&& !overloaded ==> rejection(config, c, now) is None
        }),
        rejection(config, c.judged(judged_at), now) == rejection(config, c, now),
        rejection(config, c.traffic_checked(judged_at), now) == rejection(config, c, now),
{
    codel::requests_are_turned_away_under_overload(c, now);
    codel::looking_changes_no_samples(c, judged_at, now);
}

/// A response is sampled with the time that it took; a pod is added exactly where that is
/// due with the sample, and the request for it noted.
pub proof fn responses_are_sampled(c: codel::CoDelState, total_time: u128, recorded_at: u128, checked_at: u128)
    ensures
        ({
            let (after, grow) = responded(c, total_time, recorded_at, checked_at);
            let sampled = c.sampled(total_time, recorded_at);
            &&& after.samples == sampled.samples
            &&& after.samples.len() > 0 && after.samples.last() == (recorded_at, total_time)
            &&& grow ==> after.last_scale_time == checked_at && after.above_since is None
            &&& !grow ==> after.last_scale_time == c.last_scale_time
            &&& grow <==> {
                &&& c.config.scale_cooldown == 0 || checked_at - c.last_scale_time >= c.config.scale_cooldown
                &&& codel::slow_throughout(sampled, checked_at)
                &&& c.above_since matches Some(t) && (c.windows.sustained == 0 || checked_at - t >= c.windows.sustained)
            }
        }),
{
    let sampled = c.sampled(total_time, recorded_at);
    codel::samples_go_when_they_are_old(c, total_time, recorded_at);
    codel::looking_changes_no_samples(sampled, checked_at, checked_at);
    codel::alarms_follow_the_load(sampled, checked_at);
    codel::pods_are_asked_for_under_sustained_load(sampled, checked_at);
}

} // verus!
