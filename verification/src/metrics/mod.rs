//! What is measured about the services as a whole.

pub mod volumes;

use crate::container::InstanceMetadata;
use crate::container::InstanceStore;
use crate::container::lifecycle;
use crate::level::Level;
use crate::proxy;
use crate::stores;
use crate::text;
use rustc_hash::FxHashMap;
use std::collections::HashMap;
use vstd::prelude::*;
use vstd::string::*;

verus! {

/// Something to be measured.
#[derive(Debug)]
pub enum MetricsUpdate {
    TotalServices(usize),
    TotalInstances(usize),
    ConfigReload,
    /// The service and the number of its pods.
    ServiceInstances(String, usize),
    /// The service and the status of the response.
    Request(String, u16),
    /// The service, the status of the response, and the time taken in seconds.
    RequestDuration(String, u16, Level),
}

/// What is measured about one service.
#[derive(Debug)]
pub struct ServiceStats {
    pub instance_count: usize,
    /// CPU percentages by container.
    pub cpu_usage: FxHashMap<String, Level>,
    /// Bytes of memory by container.
    pub memory_usage: FxHashMap<String, u64>,
    pub active_connections: i64,
}

impl Default for ServiceStats {
    fn default() -> (r: Self)
        ensures
            r.instance_count == 0,
            r.active_connections == 0,
            forall|k: Seq<char>| !stores::entries(r.cpu_usage).contains_key(k),
            forall|k: Seq<char>| !stores::entries(r.memory_usage).contains_key(k),
    {
        ServiceStats {
            instance_count: 0,
            cpu_usage: stores::map_new(),
            memory_usage: stores::map_new(),
            active_connections: 0,
        }
    }
}

/// A metric.
#[derive(Clone, Copy, PartialEq, Eq, Structural, Debug)]
pub enum Metric {
    ServicesTotal,
    InstancesTotal,
    ConfigReloads,
    ServiceInstances,
    ServiceRequests,
    ServiceRequestDuration,
}

/// What happens to a metric.
#[derive(Clone, Copy, PartialEq, Eq, Structural, Debug)]
pub enum MetricChange {
    SetTo(i64),
    Increment,
    Observe(Level),
}

/// A change of a metric.
#[derive(Debug)]
pub struct MetricAction {
    pub metric: Metric,
    pub labels: Vec<String>,
    pub change: MetricChange,
}

/// What a `MetricAction` says.
pub struct ActionFacts {
    pub metric: Metric,
    pub labels: Seq<Seq<char>>,
    pub change: MetricChange,
}

impl View for MetricAction {
    type V = ActionFacts;

    open spec fn view(&self) -> ActionFacts {
        ActionFacts { metric: self.metric, labels: lifecycle::texts(self.labels@), change: self.change }
    }
}

/// The change that an update comes to.
pub open spec fn action_for(update: MetricsUpdate) -> ActionFacts {
    match update {
        MetricsUpdate::TotalServices(n) => ActionFacts {
            metric: Metric::ServicesTotal,
            labels: seq![],
            change: MetricChange::SetTo(n as i64),
        },
        MetricsUpdate::TotalInstances(n) => ActionFacts {
            metric: Metric::InstancesTotal,
            labels: seq![],
            change: MetricChange::SetTo(n as i64),
        },
        MetricsUpdate::ConfigReload => ActionFacts {
            metric: Metric::ConfigReloads,
            labels: seq![],
            change: MetricChange::Increment,
        },
        MetricsUpdate::ServiceInstances(s, n) => ActionFacts {
            metric: Metric::ServiceInstances,
            labels: seq![s@],
            change: MetricChange::SetTo(n as i64),
        },
        MetricsUpdate::Request(s, code) => ActionFacts {
            metric: Metric::ServiceRequests,
            labels: seq![s@, text::decimal(code as nat)],
            change: MetricChange::Increment,
        },
        MetricsUpdate::RequestDuration(s, code, d) => ActionFacts {
            metric: Metric::ServiceRequestDuration,
            labels: seq![s@, text::decimal(code as nat)],
            change: MetricChange::Observe(d),
        },
    }
}

/// A count as metrics hold it.
#[verifier::truncate]
fn gauge_value(n: usize) -> (r: i64)
    ensures
        r == n as i64,
{
    n as i64
}

/// The change that an update comes to.
pub fn process_metrics_update(update: MetricsUpdate) -> (r: MetricAction)
    ensures
        r@ == action_for(update),
{
    let ghost wanted = action_for(update);
    let mut labels: Vec<String> = Vec::new();
    let (metric, change): (Metric, MetricChange) = match update {
        MetricsUpdate::TotalServices(n) => (Metric::ServicesTotal, MetricChange::SetTo(gauge_value(n))),
        MetricsUpdate::TotalInstances(n) => (Metric::InstancesTotal, MetricChange::SetTo(gauge_value(n))),
        MetricsUpdate::ConfigReload => (Metric::ConfigReloads, MetricChange::Increment),
        MetricsUpdate::ServiceInstances(s, n) => {
            labels.push(s);
            (Metric::ServiceInstances, MetricChange::SetTo(gauge_value(n)))
        },
        MetricsUpdate::Request(s, code) => {
            labels.push(s);
            labels.push(text::decimal_of(code as u128));
            (Metric::ServiceRequests, MetricChange::Increment)
        },
        MetricsUpdate::RequestDuration(s, code, d) => {
            labels.push(s);
            labels.push(text::decimal_of(code as u128));
            (Metric::ServiceRequestDuration, MetricChange::Observe(d))
        },
    };
    let r: MetricAction = MetricAction { metric, labels, change };
    assert(r@.labels =~= wanted.labels);
    r
}

/// The number of pods of some services together.
pub open spec fn pods_in_all(
    store: Map<Seq<char>, HashMap<u128, InstanceMetadata>>,
    order: Seq<Seq<char>>,
) -> nat
    decreases order.len(),
{
    if order.len() == 0 {
        0
    } else {
        pods_in_all(store, order.drop_last()) + proxy::pods_of(store, order.last()).len()
    }
}

/// `order` goes through the services, each once.
pub open spec fn walks_services(
    order: Seq<Seq<char>>,
    store: Map<Seq<char>, HashMap<u128, InstanceMetadata>>,
) -> bool {
    &&& order.no_duplicates()
    &&& forall|s: Seq<char>| order.contains(s) == store.contains_key(s)
}

/// How many services there are, and how many pods they have together.
pub fn count_totals(store: &InstanceStore) -> (r: (usize, u128))
    ensures
        exists|order: Seq<Seq<char>>| #[trigger]
            walks_services(order, stores::entries(*store)) && r.0 == order.len() && r.1 == pods_in_all(
                stores::entries(*store),
                order,
            ),
{
    let names: Vec<String> = stores::map_keys(store);
    let ghost all = stores::entries(*store);
    let ghost order = names@.map_values(|s: String| s@);
    let mut total: u128 = 0;
    let mut i: usize = 0;
    assert(order.take(0) =~= Seq::empty());
    while i < names.len()
        invariant
            i <= names@.len(),
            all == stores::entries(*store),
            order == names@.map_values(|s: String| s@),
            forall|k: Seq<char>| all.contains_key(k) == order.contains(k),
            total == pods_in_all(all, order.take(i as int)),
            total <= i * usize::MAX,
        decreases names@.len() - i,
    {
        proof {
            assert(order.take(i + 1).drop_last() =~= order.take(i as int));
            assert(order.take(i + 1).last() == names@[i as int]@);
            assert(order.contains(order[i as int]));
            assert((i + 1) * usize::MAX == i * usize::MAX + usize::MAX) by (nonlinear_arith);
            assert((i + 1) * usize::MAX <= u128::MAX) by (nonlinear_arith)
                requires
                    i + 1 <= usize::MAX,
            ;
        }
        let n: usize = lifecycle::pod_count(store, names[i].as_str());
        total = total + n as u128;
        i = i + 1;
    }
    proof {
        assert(order.take(i as int) =~= order);
        assert(walks_services(order, all));
    }
    (names.len(), total)
}

/// Counts of services and of pods are set, reloads and requests are counted, and
/// durations observed; each under its own metric, and what is about a service with its
/// name, what is about a request with its status code too.
pub proof fn updates_change_their_metric(n: usize, service: String, code: u16, duration: Level)
    requires
        n <= i64::MAX,
    ensures
        ({
            let total = action_for(MetricsUpdate::TotalServices(n));
            total.metric == Metric::ServicesTotal && total.labels.len() == 0 && (total.change matches MetricChange::SetTo(
                x,
            ) && x == n)
        }),
        ({
            let total = action_for(MetricsUpdate::TotalInstances(n));
            total.metric == Metric::InstancesTotal && total.labels.len() == 0 && (total.change matches MetricChange::SetTo(
                x,
            ) && x == n)
        }),
        ({
            let reload = action_for(MetricsUpdate::ConfigReload);
            reload.metric == Metric::ConfigReloads && reload.labels.len() == 0 && reload.change is Increment
        }),
        ({
            let pods = action_for(MetricsUpdate::ServiceInstances(service, n));
            pods.metric == Metric::ServiceInstances && pods.labels == seq![service@] && (
            pods.change matches MetricChange::SetTo(x) && x == n)
        }),
        ({
            let request = action_for(MetricsUpdate::Request(service, code));
            request.metric == Metric::ServiceRequests && request.labels == seq![service@, text::decimal(code as nat)]
                && request.change is Increment
        }),
        ({
            let time = action_for(MetricsUpdate::RequestDuration(service, code, duration));
            time.metric == Metric::ServiceRequestDuration && time.labels == seq![service@, text::decimal(code as nat)]
                && (time.change matches MetricChange::Observe(d) && d == duration)
        }),
{
}

/// The pods of services add up, service by service.
pub proof fn pods_add_up(
    store: Map<Seq<char>, HashMap<u128, InstanceMetadata>>,
    a: Seq<Seq<char>>,
    b: Seq<Seq<char>>,
    service: Seq<char>,
)
    ensures
        pods_in_all(store, a + b) == pods_in_all(store, a) + pods_in_all(store, b),
        store.contains_key(service) ==> pods_in_all(store, seq![service]) == store[service]@.len(),
        !store.contains_key(service) ==> pods_in_all(store, seq![service]) == 0,
        pods_in_all(store, Seq::empty()) == 0,
    decreases b.len(),
{
    assert(pods_in_all(store, Seq::empty()) == 0);
    assert(seq![service].drop_last() =~= Seq::empty());
    assert(seq![service].last() == service);
    assert(Map::<u128, InstanceMetadata>::empty().len() == 0);
    if b.len() == 0 {
        assert(a + b =~= a);
    } else {
        assert((a + b).drop_last() =~= a + b.drop_last());
        assert((a + b).last() == b.last());
        pods_add_up(store, a, b.drop_last(), service);
    }
}

} // verus!
