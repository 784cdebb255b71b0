//! Readings of containers and their history.

use crate::config::PodMetricsStrategy;
use crate::config::PodStats;
use crate::container::ContainerStats;
use crate::container::StatsEntry;
use crate::level::Level;
use crate::stores;
use dashmap::DashMap;
use rustc_hash::FxHashMap;
use std::collections::HashMap;
use std::sync::Arc;
use vstd::prelude::*;
use vstd::string::*;

verus! {

/// A second.
pub const SECOND: u128 = 1_000_000_000;

/// The last CPU reading of each container.
pub type StatsHistory = DashMap<String, StatsEntry>;

/// What a history holds, by the text of each container name.
pub uninterp spec fn last_readings(m: DashMap<String, StatsEntry>) -> Map<Seq<char>, StatsEntry>;

/// `DashMap::new`: the new history holds nothing.
#[verifier::external_body]
fn empty_history() -> (r: DashMap<String, StatsEntry>)
    ensures
        (last_readings(r) == Map::<Seq<char>, StatsEntry>::empty()),
{
    DashMap::new()
}

/// `DashMap::get`: the reading under a name.
#[verifier::external_body]
fn last_reading(m: &DashMap<String, StatsEntry>, name: &str) -> (r: Option<StatsEntry>)
    ensures
        r == (if last_readings(*m).contains_key(name@) { Some(last_readings(*m)[name@]) } else { None }),
{
    m.get(name).map(|e| *e.value())
}

/// `DashMap::insert`: the name now holds the reading.
#[verifier::external_body]
fn note_reading(m: &mut DashMap<String, StatsEntry>, name: String, entry: StatsEntry)
    ensures
        last_readings(*final(m)) == last_readings(*old(m)).insert(name@, entry),
{
    let _ = m.insert(name, entry);
}

/// `DashMap::remove`: the name holds nothing.
#[verifier::external_body]
fn forget_reading(m: &mut DashMap<String, StatsEntry>, name: &str)
    ensures
        last_readings(*final(m)) == last_readings(*old(m)).remove(name@),
{
    let _ = m.remove(name);
}

/// What a map of readings holds, by the text of each container name.
pub uninterp spec fn readings(m: DashMap<String, Arc<ContainerStats>>) -> Map<Seq<char>, Arc<ContainerStats>>;

/// `DashMap::new`: the new map holds nothing.
#[verifier::external_body]
fn empty_readings() -> (r: DashMap<String, Arc<ContainerStats>>)
    ensures
        (readings(r) == Map::<Seq<char>, Arc<ContainerStats>>::empty()),
{
    DashMap::new()
}

/// `DashMap::get`: the readings under a name.
#[verifier::external_body]
fn find_readings(m: &DashMap<String, Arc<ContainerStats>>, name: &str) -> (r: Option<Arc<ContainerStats>>)
    ensures
        r == (if readings(*m).contains_key(name@) { Some(readings(*m)[name@]) } else { None }),
{
    m.get(name).map(|e| e.value().clone())
}

/// `DashMap::insert`: the name now holds the readings.
#[verifier::external_body]
fn put_readings(m: &mut DashMap<String, Arc<ContainerStats>>, name: String, stats: Arc<ContainerStats>)
    ensures
        readings(*final(m)) == readings(*old(m)).insert(name@, stats),
{
    let _ = m.insert(name, stats);
}

/// `DashMap::remove`: the name holds nothing.
#[verifier::external_body]
fn drop_readings(m: &mut DashMap<String, Arc<ContainerStats>>, name: &str)
    ensures
        readings(*final(m)) == readings(*old(m)).remove(name@),
{
    let _ = m.remove(name);
}

/// A history without readings.
pub fn new_stats_history() -> (r: StatsHistory)
    ensures
        forall|k: Seq<char>| !last_readings(r).contains_key(k),
{
    empty_history()
}

/// The readings of the containers of one service.
#[derive(Debug)]
pub struct ServiceStats {
    container_stats: DashMap<String, Arc<ContainerStats>>,
}

impl View for ServiceStats {
    type V = Map<Seq<char>, Arc<ContainerStats>>;

    closed spec fn view(&self) -> Map<Seq<char>, Arc<ContainerStats>> {
        readings(self.container_stats)
    }
}

/// The readings of the containers of every service.
pub type ServiceStatsStore = FxHashMap<String, ServiceStats>;

impl ServiceStats {
    /// No readings yet.
    pub fn new() -> (r: Self)
        ensures
            (r@ == Map::<Seq<char>, Arc<ContainerStats>>::empty()),
    {
        ServiceStats { container_stats: empty_readings() }
    }

    /// Replaces the readings of a container.
    pub fn update_stats(&mut self, container_name: &str, stats: Arc<ContainerStats>)
        ensures
            final(self)@ == old(self)@.insert(container_name@, stats),
    {
        put_readings(&mut self.container_stats, container_name.to_owned(), stats);
    }

    /// Forgets the readings of a container.
    pub fn remove_container(&mut self, container_name: &str)
        ensures
            final(self)@ == old(self)@.remove(container_name@),
    {
        drop_readings(&mut self.container_stats, container_name);
    }

    /// The readings of a container.
    pub fn get_container_stats(&self, container_name: &str) -> (r: Option<Arc<ContainerStats>>)
        ensures
            r == (if self@.contains_key(container_name@) { Some(self@[container_name@]) } else { None }),
    {
        find_readings(&self.container_stats, container_name)
    }
}

/// The bytes that went over one network interface.
#[derive(Clone, Copy, PartialEq, Eq, Structural, Debug)]
pub struct NetworkCounters {
    pub rx_bytes: u64,
    pub tx_bytes: u64,
}

/// Readings as the runtime reports them.
#[derive(Debug)]
pub struct RawStats {
    pub id: String,
    pub cpu_total_usage: u64,
    pub system_cpu_usage: Option<u64>,
    pub memory_usage: Option<u64>,
    pub memory_limit: Option<u64>,
    pub networks: Option<Vec<NetworkCounters>>,
}

/// The bytes received over all interfaces.
pub open spec fn total_rx(n: Seq<NetworkCounters>) -> nat
    decreases n.len(),
{
    if n.len() == 0 {
        0
    } else {
        total_rx(n.drop_last()) + n.last().rx_bytes as nat
    }
}

/// The bytes sent over all interfaces.
pub open spec fn total_tx(n: Seq<NetworkCounters>) -> nat
    decreases n.len(),
{
    if n.len() == 0 {
        0
    } else {
        total_tx(n.drop_last()) + n.last().tx_bytes as nat
    }
}

/// The totals can be counted in 64 bits.
pub open spec fn countable(networks: Option<Vec<NetworkCounters>>) -> bool {
    networks matches Some(n) ==> total_rx(n@) <= u64::MAX && total_tx(n@) <= u64::MAX
}

/// Part of a list counts no more than all of it.
proof fn lemma_totals_grow(n: Seq<NetworkCounters>, k: int)
    requires
        0 <= k <= n.len(),
    ensures
        total_rx(n.take(k)) <= total_rx(n),
        total_tx(n.take(k)) <= total_tx(n),
    decreases n.len(),
{
    if k == n.len() {
        assert(n.take(k) =~= n);
    } else {
        assert(n.drop_last().take(k) =~= n.take(k));
        lemma_totals_grow(n.drop_last(), k);
    }
}

/// The bytes received and sent over all interfaces.
pub fn network_totals(n: &Vec<NetworkCounters>) -> (r: NetworkCounters)
    requires
        total_rx(n@) <= u64::MAX,
        total_tx(n@) <= u64::MAX,
    ensures
        r.rx_bytes == total_rx(n@),
        r.tx_bytes == total_tx(n@),
{
    let mut rx: u64 = 0;
    let mut tx: u64 = 0;
    let mut i: usize = 0;
    assert(n@.take(0) =~= Seq::empty());
    while i < n.len()
        invariant
            i <= n@.len(),
            total_rx(n@) <= u64::MAX,
            total_tx(n@) <= u64::MAX,
            rx == total_rx(n@.take(i as int)),
            tx == total_tx(n@.take(i as int)),
        decreases n@.len() - i,
    {
        proof {
            assert(n@.take(i + 1).drop_last() =~= n@.take(i as int));
            assert(n@.take(i + 1).last() == n@[i as int]);
            lemma_totals_grow(n@, i + 1);
        }
        rx = rx + n[i].rx_bytes;
        tx = tx + n[i].tx_bytes;
        i = i + 1;
    }
    assert(n@.take(i as int) =~= n@);
    NetworkCounters { rx_bytes: rx, tx_bytes: tx }
}

/// The time between two readings; a second where they are out of order.
pub open spec fn reading_gap(now: u128, before: u128) -> u128 {
    if now >= before {
        (now - before) as u128
    } else {
        SECOND
    }
}

/// What network rates are computed from.
#[derive(Clone, Copy, PartialEq, Eq, Structural, Debug)]
pub struct RateBasis {
    pub now: NetworkCounters,
    pub before: NetworkCounters,
    /// Nanoseconds between the two, above zero.
    pub elapsed: u128,
}

/// What network rates are computed from; nothing without counters, without an
/// earlier reading, or where no time has passed.
pub open spec fn rate_basis(
    networks: Option<Vec<NetworkCounters>>,
    now: u128,
    previous: Option<Arc<ContainerStats>>,
) -> Option<RateBasis> {
    match (networks, previous) {
        (Some(n), Some(p)) => if reading_gap(now, p.timestamp) > 0 {
            Some(
                RateBasis {
                    now: NetworkCounters { rx_bytes: total_rx(n@) as u64, tx_bytes: total_tx(n@) as u64 },
                    before: NetworkCounters { rx_bytes: p.network_rx_bytes, tx_bytes: p.network_tx_bytes },
                    elapsed: reading_gap(now, p.timestamp),
                },
            )
        } else {
            None
        },
        _ => None,
    }
}

/// What network rates are to be computed from.
pub fn find_rate_basis(
    networks: &Option<Vec<NetworkCounters>>,
    now: u128,
    previous: &Option<Arc<ContainerStats>>,
) -> (r: Option<RateBasis>)
    requires
        countable(*networks),
    ensures
        r == rate_basis(*networks, now, *previous),
{
    match networks {
        Some(n) => match previous {
            Some(p) => {
                let gap: u128 = if now >= p.timestamp {
                    now - p.timestamp
                } else {
                    SECOND
                };
                if gap > 0 {
                    Some(
                        RateBasis {
                            now: network_totals(n),
                            before: NetworkCounters { rx_bytes: p.network_rx_bytes, tx_bytes: p.network_tx_bytes },
                            elapsed: gap,
                        },
                    )
                } else {
                    None
                }
            },
            None => None,
        },
        None => None,
    }
}

/// Network rates in bytes per second.
#[derive(Clone, Copy, PartialEq, Eq, Structural, Debug)]
pub struct NetworkRates {
    pub rx: Level,
    pub tx: Level,
}

/// CPU percentages of a container.
#[derive(Clone, Copy, PartialEq, Eq, Structural, Debug)]
pub struct CpuPercentages {
    /// Of all processors.
    pub absolute: Level,
    /// Of what the container may use.
    pub relative: Level,
}

/// What a `ContainerStats` says.
pub struct StatsFacts {
    pub id: Seq<char>,
    pub ip_address: Seq<char>,
    pub cpu_percentage: Level,
    pub cpu_percentage_relative: Level,
    pub memory_usage: u64,
    pub memory_limit: u64,
    pub port_mappings: Map<u16, u16>,
    pub network_rx_bytes: u64,
    pub network_tx_bytes: u64,
    pub network_rx_rate: Level,
    pub network_tx_rate: Level,
    pub timestamp: u128,
}

impl View for ContainerStats {
    type V = StatsFacts;

    open spec fn view(&self) -> StatsFacts {
        StatsFacts {
            id: self.id@,
            ip_address: self.ip_address@,
            cpu_percentage: self.cpu_percentage,
            cpu_percentage_relative: self.cpu_percentage_relative,
            memory_usage: self.memory_usage,
            memory_limit: self.memory_limit,
            port_mappings: self.port_mappings@,
            network_rx_bytes: self.network_rx_bytes,
            network_tx_bytes: self.network_tx_bytes,
            network_rx_rate: self.network_rx_rate,
            network_tx_rate: self.network_tx_rate,
            timestamp: self.timestamp,
        }
    }
}

/// Zero where nothing was reported.
pub open spec fn or_zero(v: Option<u64>) -> u64 {
    match v {
        Some(x) => x,
        None => 0,
    }
}

fn zero_unless(v: Option<u64>) -> (r: u64)
    ensures
        r == or_zero(v),
{
    match v {
        Some(x) => x,
        None => 0,
    }
}

/// Readings with the counters of the interfaces taken in, where `basis` tells
/// whether rates could be computed.
pub open spec fn with_network(
    s: StatsFacts,
    networks: Option<Vec<NetworkCounters>>,
    basis: Option<RateBasis>,
    rates: NetworkRates,
) -> StatsFacts {
    match networks {
        Some(n) => StatsFacts {
            network_rx_bytes: total_rx(n@) as u64,
            network_tx_bytes: total_tx(n@) as u64,
            network_rx_rate: if basis is Some {
                rates.rx
            } else {
                s.network_rx_rate
            },
            network_tx_rate: if basis is Some {
                rates.tx
            } else {
                s.network_tx_rate
            },
            ..s
        },
        None => s,
    }
}

/// The readings that a report comes to.
pub open spec fn digest(
    raw: RawStats,
    cpu: CpuPercentages,
    rates: NetworkRates,
    previous: Option<Arc<ContainerStats>>,
    now: u128,
) -> StatsFacts {
    with_network(
        StatsFacts {
            id: raw.id@,
            ip_address: ""@,
            cpu_percentage: cpu.absolute,
            cpu_percentage_relative: cpu.relative,
            memory_usage: or_zero(raw.memory_usage),
            memory_limit: or_zero(raw.memory_limit),
            port_mappings: Map::empty(),
            network_rx_bytes: 0,
            network_tx_bytes: 0,
            network_rx_rate: Level { bits: 0 },
            network_tx_rate: Level { bits: 0 },
            timestamp: now,
        },
        raw.networks,
        rate_basis(raw.networks, now, previous),
        rates,
    )
}

impl ContainerStats {
    /// Takes in the counters of the interfaces. The rates count only where there
    /// was something to compute them from.
    pub fn update_network_stats(
        &mut self,
        networks: &Option<Vec<NetworkCounters>>,
        previous: &Option<Arc<ContainerStats>>,
        rates: &NetworkRates,
    )
        requires
            countable(*networks),
        ensures
            final(self)@ == with_network(
                old(self)@,
                *networks,
                rate_basis(*networks, old(self).timestamp, *previous),
                *rates,
            ),
    {
        let basis: Option<RateBasis> = find_rate_basis(networks, self.timestamp, previous);
        if let Some(n) = networks {
            let totals: NetworkCounters = network_totals(n);
            if basis.is_some() {
                self.network_rx_rate = rates.rx;
                self.network_tx_rate = rates.tx;
            }
            self.network_rx_bytes = totals.rx_bytes;
            self.network_tx_bytes = totals.tx_bytes;
        }
    }
}

/// The readings that a report comes to.
fn digest_report(
    raw: &RawStats,
    cpu: &CpuPercentages,
    rates: &NetworkRates,
    previous: &Option<Arc<ContainerStats>>,
    now: u128,
) -> (r: ContainerStats)
    requires
        countable(raw.networks),
    ensures
        r@ == digest(*raw, *cpu, *rates, *previous, now),
{
    let mut r: ContainerStats = ContainerStats {
        id: raw.id.clone(),
        ip_address: "".to_owned(),
        cpu_percentage: cpu.absolute,
        cpu_percentage_relative: cpu.relative,
        memory_usage: zero_unless(raw.memory_usage),
        memory_limit: zero_unless(raw.memory_limit),
        port_mappings: HashMap::new(),
        network_rx_bytes: 0,
        network_tx_bytes: 0,
        network_rx_rate: Level::zero(),
        network_tx_rate: Level::zero(),
        timestamp: now,
    };
    r.update_network_stats(&raw.networks, previous, rates);
    r
}

/// The readings of a container in a store.
pub open spec fn kept_stats(
    services: Map<Seq<char>, ServiceStats>,
    service: Seq<char>,
    container: Seq<char>,
) -> Option<Arc<ContainerStats>> {
    if services.contains_key(service) && services[service]@.contains_key(container) {
        Some(services[service]@[container])
    } else {
        None
    }
}

/// The last CPU reading of a container and, where there is one, its last
/// readings.
pub open spec fn previous_of(
    history: Map<Seq<char>, StatsEntry>,
    services: Map<Seq<char>, ServiceStats>,
    service: Seq<char>,
    container: Seq<char>,
) -> Option<(StatsEntry, Option<Arc<ContainerStats>>)> {
    if history.contains_key(container) {
        Some((history[container], kept_stats(services, service, container)))
    } else {
        None
    }
}

/// The readings before the current one.
pub fn previous_stats(history: &StatsHistory, services: &ServiceStatsStore, service_name: &str, container_name: &str) -> (r:
    Option<(StatsEntry, Option<Arc<ContainerStats>>)>)
    ensures
        r == previous_of(last_readings(*history), stores::entries(*services), service_name@, container_name@),
{
    match last_reading(history, container_name) {
        Some(entry) => {
            let before: Option<Arc<ContainerStats>> = match stores::map_get(services, service_name) {
                Some(s) => s.get_container_stats(container_name),
                None => None,
            };
            Some((entry, before))
        },
        None => None,
    }
}

/// What the rates are computed from: readings without a CPU reading do not count.
pub open spec fn before_this(
    previous: Option<(StatsEntry, Option<Arc<ContainerStats>>)>,
) -> Option<Arc<ContainerStats>> {
    match previous {
        Some(p) => p.1,
        None => None,
    }
}

/// Takes in a report on a container: the CPU reading becomes the last one, and
/// the readings replace those kept for the container.
pub fn update_container_stats(
    history: &mut StatsHistory,
    services: &mut ServiceStatsStore,
    service_name: &str,
    container_name: &str,
    raw: &RawStats,
    cpu: &CpuPercentages,
    rates: &NetworkRates,
    now: u128,
) -> (r: ContainerStats)
    requires
        countable(raw.networks),
    ensures
        ({
            let previous = previous_of(
                last_readings(*old(history)),
                stores::entries(*old(services)),
                service_name@,
                container_name@,
            );
            let facts = digest(*raw, *cpu, *rates, before_this(previous), now);
            &&& r@ == facts
            &&& last_readings(*final(history)) == last_readings(*old(history)).insert(
                container_name@,
                StatsEntry {
                    timestamp: now,
                    cpu_total_usage: raw.cpu_total_usage,
                    system_cpu_usage: or_zero(raw.system_cpu_usage),
                },
            )
            &&& last_readings(*final(history))[container_name@] == entry_of(*raw, now)
            &&& kept_stats(stores::entries(*final(services)), service_name@, container_name@) matches Some(s) && s@
                == facts
            &&& forall|s: Seq<char>, c: Seq<char>|
                s != service_name@ || c != container_name@ ==> #[trigger] kept_stats(
                    stores::entries(*final(services)),
                    s,
                    c,
                ) == kept_stats(stores::entries(*old(services)), s, c)
            &&& stores::entries(*final(services)).dom() == stores::entries(*old(services)).dom().insert(service_name@)
            &&& forall|s: Seq<char>|
                s != service_name@ ==> #[trigger] stores::entries(*final(services))[s] == stores::entries(
                    *old(services),
                )[s]
        }),
{
    let previous: Option<(StatsEntry, Option<Arc<ContainerStats>>)> = previous_stats(
        history,
        services,
        service_name,
        container_name,
    );
    let before: Option<Arc<ContainerStats>> = match previous {
        Some((_, p)) => p,
        None => None,
    };
    note_reading(
        history,
        container_name.to_owned(),
        StatsEntry {
            timestamp: now,
            cpu_total_usage: raw.cpu_total_usage,
            system_cpu_usage: zero_unless(raw.system_cpu_usage),
        },
    );
    let kept: Arc<ContainerStats> = Arc::new(digest_report(raw, cpu, rates, &before, now));
    let mut service: ServiceStats = match stores::map_remove(services, service_name) {
        Some(s) => s,
        None => ServiceStats::new(),
    };
    service.update_stats(container_name, kept);
    let _ = stores::map_insert(services, service_name.to_owned(), service);
    assert(stores::entries(*services).dom() =~= stores::entries(*old(services)).dom().insert(service_name@));
    digest_report(raw, cpu, rates, &before, now)
}

/// Forgets a container.
pub fn remove_container_stats(
    history: &mut StatsHistory,
    services: &mut ServiceStatsStore,
    service_name: &str,
    container_name: &str,
)
    ensures
        last_readings(*final(history)) == last_readings(*old(history)).remove(container_name@),
        kept_stats(stores::entries(*final(services)), service_name@, container_name@) is None,
        forall|s: Seq<char>, c: Seq<char>|
            s != service_name@ || c != container_name@ ==> #[trigger] kept_stats(
                stores::entries(*final(services)),
                s,
                c,
            ) == kept_stats(stores::entries(*old(services)), s, c),
        stores::entries(*final(services)).dom() == stores::entries(*old(services)).dom(),
        forall|s: Seq<char>|
            s != service_name@ ==> #[trigger] stores::entries(*final(services))[s] == stores::entries(*old(services))[s],
{
    forget_reading(history, container_name);
    if let Some(s) = stores::map_get_mut(services, service_name) {
        s.remove_container(container_name);
    }
    assert(stores::entries(*services).dom() =~= stores::entries(*old(services)).dom());
}

/// The host port that a container port is mapped to.
pub fn find_host_port(stats: &ContainerStats, container_port: u16) -> (r: Option<u16>)
    ensures
        r == (if stats.port_mappings@.contains_key(container_port) {
            Some(stats.port_mappings@[container_port])
        } else {
            None
        }),
{
    match stats.port_mappings.get(&container_port) {
        Some(p) => Some(*p),
        None => None,
    }
}

/// The greatest memory usage; zero of none.
pub open spec fn max_memory(s: Seq<Arc<ContainerStats>>) -> (u64, u64)
    decreases s.len(),
{
    if s.len() == 0 {
        (0, 0)
    } else {
        let (u, l) = max_memory(s.drop_last());
        (
            if s.last().memory_usage > u { s.last().memory_usage } else { u },
            if s.last().memory_limit > l { s.last().memory_limit } else { l },
        )
    }
}

/// The greater of two levels; a level that is not a number gives way.
pub open spec fn higher(a: Level, b: Level) -> Level {
    if a.nan() || b.above(a) {
        b
    } else {
        a
    }
}

/// The greatest CPU percentages; zero of none.
pub open spec fn max_cpu(s: Seq<Arc<ContainerStats>>) -> CpuPercentages
    decreases s.len(),
{
    if s.len() == 0 {
        CpuPercentages { absolute: Level { bits: 0 }, relative: Level { bits: 0 } }
    } else {
        let m = max_cpu(s.drop_last());
        CpuPercentages {
            absolute: higher(m.absolute, s.last().cpu_percentage),
            relative: higher(m.relative, s.last().cpu_percentage_relative),
        }
    }
}

/// The sums of memory usage and of memory limits.
pub open spec fn sum_memory(s: Seq<Arc<ContainerStats>>) -> (nat, nat)
    decreases s.len(),
{
    if s.len() == 0 {
        (0, 0)
    } else {
        let (u, l) = sum_memory(s.drop_last());
        (u + s.last().memory_usage as nat, l + s.last().memory_limit as nat)
    }
}

/// Part of a list sums to no more than all of it.
proof fn lemma_sum_grows(s: Seq<Arc<ContainerStats>>, k: int)
    requires
        0 <= k <= s.len(),
    ensures
        sum_memory(s.take(k)).0 <= sum_memory(s).0,
        sum_memory(s.take(k)).1 <= sum_memory(s).1,
    decreases s.len(),
{
    if k == s.len() {
        assert(s.take(k) =~= s);
    } else {
        assert(s.drop_last().take(k) =~= s.take(k));
        lemma_sum_grows(s.drop_last(), k);
    }
}

/// The readings of a pod: by the greatest of each reading, or by the mean.
pub open spec fn aggregated(
    s: Seq<Arc<ContainerStats>>,
    strategy: PodMetricsStrategy,
    mean_cpu: CpuPercentages,
) -> PodStats {
    match strategy {
        PodMetricsStrategy::Maximum => PodStats {
            cpu_percentage: max_cpu(s).absolute,
            cpu_percentage_relative: max_cpu(s).relative,
            memory_usage: max_memory(s).0,
            memory_limit: max_memory(s).1,
        },
        PodMetricsStrategy::Average => PodStats {
            cpu_percentage: mean_cpu.absolute,
            cpu_percentage_relative: mean_cpu.relative,
            memory_usage: (sum_memory(s).0 / s.len()) as u64,
            memory_limit: (sum_memory(s).1 / s.len()) as u64,
        },
    }
}

/// The readings of a pod: by the greatest of each reading, or by the mean. The means
/// of the CPU percentages are given.
pub fn aggregate_pod_stats(
    container_stats: &Vec<Arc<ContainerStats>>,
    strategy: &PodMetricsStrategy,
    mean_cpu: &CpuPercentages,
) -> (r: PodStats)
    requires
        *strategy == PodMetricsStrategy::Average ==> container_stats@.len() > 0 && sum_memory(container_stats@).0
            <= u64::MAX && sum_memory(container_stats@).1 <= u64::MAX,
    ensures
        r == aggregated(container_stats@, *strategy, *mean_cpu),
        match *strategy {
            PodMetricsStrategy::Maximum => {
                &&& r.cpu_percentage == max_cpu(container_stats@).absolute
                &&& r.cpu_percentage_relative == max_cpu(container_stats@).relative
                &&& (r.memory_usage, r.memory_limit) == max_memory(container_stats@)
            },
            PodMetricsStrategy::Average => {
                &&& r.cpu_percentage == mean_cpu.absolute
                &&& r.cpu_percentage_relative == mean_cpu.relative
                &&& r.memory_usage == sum_memory(container_stats@).0 / container_stats@.len()
                &&& r.memory_limit == sum_memory(container_stats@).1 / container_stats@.len()
            },
        },
{
    let mut i: usize = 0;
    let s: &Vec<Arc<ContainerStats>> = container_stats;
    assert(s@.take(0) =~= Seq::empty());
    match strategy {
        PodMetricsStrategy::Maximum => {
            let mut r: PodStats = PodStats {
                cpu_percentage: Level::zero(),
                cpu_percentage_relative: Level::zero(),
                memory_usage: 0,
                memory_limit: 0,
            };
            while i < s.len()
                invariant
                    i <= s@.len(),
                            r.cpu_percentage == max_cpu(s@.take(i as int)).absolute,
                    r.cpu_percentage_relative == max_cpu(s@.take(i as int)).relative,
                    (r.memory_usage, r.memory_limit) == max_memory(s@.take(i as int)),
                decreases s@.len() - i,
            {
                proof {
                    assert(s@.take(i + 1).drop_last() =~= s@.take(i as int));
                    assert(s@.take(i + 1).last() == s@[i as int]);
                }
                r.cpu_percentage = r.cpu_percentage.max_with(&s[i].cpu_percentage);
                r.cpu_percentage_relative = r.cpu_percentage_relative.max_with(&s[i].cpu_percentage_relative);
                if s[i].memory_usage > r.memory_usage {
                    r.memory_usage = s[i].memory_usage;
                }
                if s[i].memory_limit > r.memory_limit {
                    r.memory_limit = s[i].memory_limit;
                }
                i = i + 1;
            }
            assert(s@.take(i as int) =~= s@);
            r
        },
        PodMetricsStrategy::Average => {
            let mut usage: u64 = 0;
            let mut limit: u64 = 0;
            while i < s.len()
                invariant
                    i <= s@.len(),
                    sum_memory(s@).0 <= u64::MAX,
                    sum_memory(s@).1 <= u64::MAX,
                    usage == sum_memory(s@.take(i as int)).0,
                    limit == sum_memory(s@.take(i as int)).1,
                decreases s@.len() - i,
            {
                proof {
                    assert(s@.take(i + 1).drop_last() =~= s@.take(i as int));
                    assert(s@.take(i + 1).last() == s@[i as int]);
                    lemma_sum_grows(s@, i + 1);
                }
                usage = usage + s[i].memory_usage;
                limit = limit + s[i].memory_limit;
                i = i + 1;
            }
            assert(s@.take(i as int) =~= s@);
            let count: u64 = s.len() as u64;
            PodStats {
                cpu_percentage: mean_cpu.absolute,
                cpu_percentage_relative: mean_cpu.relative,
                memory_usage: usage / count,
                memory_limit: limit / count,
            }
        },
    }
}

/// A pod's greatest readings are at least those of each of its containers.
pub proof fn maximum_covers_every_container(s: Seq<Arc<ContainerStats>>, i: int)
    requires
        0 <= i < s.len(),
    ensures
        max_memory(s).0 >= s[i].memory_usage,
        max_memory(s).1 >= s[i].memory_limit,
        !max_cpu(s).absolute.nan(),
        !s[i].cpu_percentage.nan() ==> max_cpu(s).absolute.not_below(s[i].cpu_percentage),
    decreases s.len(),
{
    if s.len() > 1 {
        let rest = s.drop_last();
        if i < rest.len() {
            maximum_covers_every_container(rest, i);
        } else {
            maximum_covers_every_container(rest, 0);
        }
    } else {
        assert(s.drop_last().len() == 0);
        assert(max_cpu(s.drop_last()).absolute == (Level { bits: 0 }));
    }
}

/// A report is what the next one is compared with.
pub proof fn reports_are_compared_with_the_last(
    history: Map<Seq<char>, StatsEntry>,
    services: Map<Seq<char>, ServiceStats>,
    service: Seq<char>,
    container: Seq<char>,
    entry: StatsEntry,
    stats: Arc<ContainerStats>,
)
    requires
        kept_stats(services, service, container) == Some(stats),
    ensures
        previous_of(history.insert(container, entry), services, service, container) == Some((entry, Some(stats))),
{
}

/// A container that was forgotten has no previous readings.
pub proof fn forgotten_containers_start_over(
    history: Map<Seq<char>, StatsEntry>,
    services: Map<Seq<char>, ServiceStats>,
    service: Seq<char>,
    container: Seq<char>,
)
    ensures
        previous_of(history.remove(container), services, service, container) is None,
{
}

/// The totals over several interfaces are the sums of what each counts.
pub proof fn totals_add_up(a: Seq<NetworkCounters>, b: Seq<NetworkCounters>, n: NetworkCounters)
    ensures
        total_rx(a + b) == total_rx(a) + total_rx(b),
        total_tx(a + b) == total_tx(a) + total_tx(b),
        total_rx(seq![n]) == n.rx_bytes,
        total_tx(seq![n]) == n.tx_bytes,
        total_rx(Seq::empty()) == 0,
        total_tx(Seq::empty()) == 0,
    decreases b.len(),
{
    assert(seq![n].drop_last() =~= Seq::empty());
    assert(total_rx(Seq::empty()) == 0 && total_tx(Seq::empty()) == 0);
    assert(seq![n].last() == n);
    if b.len() == 0 {
        assert(a + b =~= a);
    } else {
        assert((a + b).drop_last() =~= a + b.drop_last());
        assert((a + b).last() == b.last());
        totals_add_up(a, b.drop_last(), n);
    }
}

/// Network rates are taken over the time since the report before, of which the
/// counters are those it kept: exactly where both reports are there and not of the same
/// time. A clock that went back counts as a second.
pub proof fn rates_are_taken_since_the_last_report(
    networks: Option<Vec<NetworkCounters>>,
    now: u128,
    previous: Option<Arc<ContainerStats>>,
)
    requires
        countable(networks),
    ensures
        rate_basis(networks, now, previous) is Some <==> networks is Some && (previous matches Some(p) && p.timestamp
            != now),
        rate_basis(networks, now, previous) matches Some(b) ==> {
            &&& b.now.rx_bytes == total_rx(networks->0@)
            &&& b.now.tx_bytes == total_tx(networks->0@)
            &&& b.before.rx_bytes == previous->0.network_rx_bytes
            &&& b.before.tx_bytes == previous->0.network_tx_bytes
            &&& now >= previous->0.timestamp ==> previous->0.timestamp + b.elapsed == now
            &&& now < previous->0.timestamp ==> b.elapsed == 1_000_000_000
        },
{
}

/// A report is kept as it came: its CPU percentages, its memory with zero for what is
/// missing, the totals of its interfaces or zero without any, and the time. Rates are
/// kept where there is a report to compare with, and are zero otherwise.
pub proof fn reports_are_kept_as_they_come(
    raw: RawStats,
    cpu: CpuPercentages,
    rates: NetworkRates,
    previous: Option<Arc<ContainerStats>>,
    now: u128,
)
    requires
        countable(raw.networks),
    ensures
        ({
            let kept = digest(raw, cpu, rates, previous, now);
            let compared = raw.networks is Some && (previous matches Some(p) && p.timestamp != now);
            &&& kept.id == raw.id@
            &&& kept.timestamp == now
            &&& kept.cpu_percentage == cpu.absolute
            &&& kept.cpu_percentage_relative == cpu.relative
            &&& raw.memory_usage matches Some(m) ==> kept.memory_usage == m
            &&& raw.memory_usage is None ==> kept.memory_usage == 0
            &&& raw.memory_limit matches Some(m) ==> kept.memory_limit == m
            &&& raw.memory_limit is None ==> kept.memory_limit == 0
            &&& raw.networks matches Some(n) ==> kept.network_rx_bytes == total_rx(n@) && kept.network_tx_bytes
                == total_tx(n@)
            &&& raw.networks is None ==> kept.network_rx_bytes == 0 && kept.network_tx_bytes == 0
            &&& compared ==> kept.network_rx_rate == rates.rx && kept.network_tx_rate == rates.tx
            &&& !compared ==> kept.network_rx_rate.bits == 0 && kept.network_tx_rate.bits == 0
            &&& kept.ip_address == ""@
            &&& kept.port_mappings == Map::<u16, u16>::empty()
        }),
{
}

/// The readings before a report are those of the same container: the last entry of
/// its history with what is kept of it under its service. Without history there are
/// none.
pub proof fn containers_are_compared_with_themselves(
    history: Map<Seq<char>, StatsEntry>,
    services: Map<Seq<char>, ServiceStats>,
    service: Seq<char>,
    container: Seq<char>,
)
    ensures
        previous_of(history, services, service, container) is Some <==> history.contains_key(container),
        previous_of(history, services, service, container) matches Some(p) ==> p.0 == history[container] && p.1
            == kept_stats(services, service, container),
        kept_stats(services, service, container) is Some <==> services.contains_key(service)
            && services[service]@.contains_key(container),
        kept_stats(services, service, container) matches Some(s) ==> s == services[service]@[container],
        before_this(previous_of(history, services, service, container)) == (if history.contains_key(container) {
            kept_stats(services, service, container)
        } else {
            None
        }),
{
}

/// The greatest readings of a pod are each the reading of one of its containers, or
/// zero, and no container reads more.
pub proof fn greatest_readings_are_read(s: Seq<Arc<ContainerStats>>)
    ensures
        max_memory(s).0 == 0 || exists|i: int| 0 <= i < s.len() && (#[trigger] s[i]).memory_usage == max_memory(s).0,
        max_memory(s).1 == 0 || exists|i: int| 0 <= i < s.len() && (#[trigger] s[i]).memory_limit == max_memory(s).1,
        max_cpu(s).absolute.bits == 0 || exists|i: int|
            0 <= i < s.len() && (#[trigger] s[i]).cpu_percentage == max_cpu(s).absolute,
        max_cpu(s).relative.bits == 0 || exists|i: int|
            0 <= i < s.len() && (#[trigger] s[i]).cpu_percentage_relative == max_cpu(s).relative,
        forall|i: int|
            0 <= i < s.len() ==> (#[trigger] s[i]).memory_usage <= max_memory(s).0 && s[i].memory_limit <= max_memory(
                s,
            ).1 && !s[i].cpu_percentage.above(max_cpu(s).absolute) && !s[i].cpu_percentage_relative.above(
                max_cpu(s).relative,
            ),
        !max_cpu(s).absolute.nan(),
        !max_cpu(s).relative.nan(),
        !(Level { bits: 0 }).above(max_cpu(s).absolute),
        !(Level { bits: 0 }).above(max_cpu(s).relative),
    decreases s.len(),
{
    if s.len() > 0 {
        let rest = s.drop_last();
        greatest_readings_are_read(rest);
        let n = s.len() - 1;
        assert(s[n] == s.last());
        if exists|i: int| 0 <= i < rest.len() && (#[trigger] rest[i]).memory_usage == max_memory(rest).0 {
            let i = choose|i: int| 0 <= i < rest.len() && (#[trigger] rest[i]).memory_usage == max_memory(rest).0;
            assert(s[i].memory_usage == max_memory(rest).0);
        }
        if exists|i: int| 0 <= i < rest.len() && (#[trigger] rest[i]).memory_limit == max_memory(rest).1 {
            let i = choose|i: int| 0 <= i < rest.len() && (#[trigger] rest[i]).memory_limit == max_memory(rest).1;
            assert(s[i].memory_limit == max_memory(rest).1);
        }
        if exists|i: int| 0 <= i < rest.len() && (#[trigger] rest[i]).cpu_percentage == max_cpu(rest).absolute {
            let i = choose|i: int| 0 <= i < rest.len() && (#[trigger] rest[i]).cpu_percentage == max_cpu(rest).absolute;
            assert(s[i].cpu_percentage == max_cpu(rest).absolute);
        }
        if exists|i: int| 0 <= i < rest.len() && (#[trigger] rest[i]).cpu_percentage_relative == max_cpu(rest).relative {
            let i = choose|i: int|
                0 <= i < rest.len() && (#[trigger] rest[i]).cpu_percentage_relative == max_cpu(rest).relative;
            assert(s[i].cpu_percentage_relative == max_cpu(rest).relative);
        }
        assert forall|i: int| 0 <= i < s.len() implies (#[trigger] s[i]).memory_usage <= max_memory(s).0
            && s[i].memory_limit <= max_memory(s).1 && !s[i].cpu_percentage.above(max_cpu(s).absolute)
            && !s[i].cpu_percentage_relative.above(max_cpu(s).relative) by {
            if i < n {
                assert(rest[i] == s[i]);
            }
        }
    }
}

/// Sums of memory add up.
pub proof fn memory_adds_up(a: Seq<Arc<ContainerStats>>, b: Seq<Arc<ContainerStats>>, s: Arc<ContainerStats>)
    ensures
        sum_memory(a + b).0 == sum_memory(a).0 + sum_memory(b).0,
        sum_memory(a + b).1 == sum_memory(a).1 + sum_memory(b).1,
        sum_memory(seq![s]) == (s.memory_usage as nat, s.memory_limit as nat),
        sum_memory(Seq::empty()) == (0nat, 0nat),
    decreases b.len(),
{
    assert(seq![s].drop_last() =~= Seq::empty());
    assert(seq![s].last() == s);
    assert(sum_memory(Seq::empty()) == (0nat, 0nat));
    if b.len() == 0 {
        assert(a + b =~= a);
    } else {
        assert((a + b).drop_last() =~= a + b.drop_last());
        assert((a + b).last() == b.last());
        memory_adds_up(a, b.drop_last(), s);
    }
}

/// By the greatest, no container of a pod reads more than the pod; by the mean, the pod's
/// memory is the sum over its containers, shared equally, but for what does not divide.
pub proof fn pods_read_what_their_containers_read(
    s: Seq<Arc<ContainerStats>>,
    mean_cpu: CpuPercentages,
    i: int,
)
    requires
        0 <= i < s.len(),
        sum_memory(s).0 <= u64::MAX,
        sum_memory(s).1 <= u64::MAX,
    ensures
        ({
            let most = aggregated(s, PodMetricsStrategy::Maximum, mean_cpu);
            let mean = aggregated(s, PodMetricsStrategy::Average, mean_cpu);
            &&& most.memory_usage >= s[i].memory_usage
            &&& most.memory_limit >= s[i].memory_limit
            &&& !s[i].cpu_percentage.above(most.cpu_percentage)
            &&& !s[i].cpu_percentage_relative.above(most.cpu_percentage_relative)
            &&& mean.memory_usage * s.len() <= sum_memory(s).0 < (mean.memory_usage + 1) * s.len()
            &&& mean.memory_limit * s.len() <= sum_memory(s).1 < (mean.memory_limit + 1) * s.len()
            &&& mean.cpu_percentage == mean_cpu.absolute
            &&& mean.cpu_percentage_relative == mean_cpu.relative
        }),
{
    greatest_readings_are_read(s);
    let (a, b, n) = (sum_memory(s).0 as int, sum_memory(s).1 as int, s.len() as int);
    assert((a / n) * n <= a < (a / n + 1) * n && 0 <= a / n <= a) by (nonlinear_arith)
        requires
            n > 0,
            a >= 0,
    ;
    assert((b / n) * n <= b < (b / n + 1) * n && 0 <= b / n <= b) by (nonlinear_arith)
        requires
            n > 0,
            b >= 0,
    ;
}

/// What is kept of a report for the next CPU percentage.
pub open spec fn entry_of(raw: RawStats, now: u128) -> StatsEntry {
    StatsEntry {
        timestamp: now,
        cpu_total_usage: raw.cpu_total_usage,
        system_cpu_usage: or_zero(raw.system_cpu_usage),
    }
}

/// The next CPU percentage is taken from the counters of this report and its time; a system
/// that counts nothing counts as zero.
pub proof fn counters_are_kept_for_the_next_report(raw: RawStats, now: u128)
    ensures
        entry_of(raw, now).timestamp == now,
        entry_of(raw, now).cpu_total_usage == raw.cpu_total_usage,
        raw.system_cpu_usage matches Some(c) ==> entry_of(raw, now).system_cpu_usage == c,
        raw.system_cpu_usage is None ==> entry_of(raw, now).system_cpu_usage == 0,
{
}

} // verus!
