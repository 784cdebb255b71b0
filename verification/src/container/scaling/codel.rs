//! Latency samples of a service and what they say about its load.
//!
//! Times are in nanoseconds on a clock of the caller's choice.

use crate::config::CoDelConfig;
use dashmap::DashMap;
use std::collections::VecDeque;
use vstd::prelude::*;
use vstd::string::*;

verus! {

/// The most samples that are kept.
pub const MAX_SAMPLES: usize = 1000;

/// How many samples it takes to call a service overloaded.
pub const MIN_OVERLOAD_SAMPLES: usize = 10;

/// How many recent samples it takes to call a service idle, unless there are none.
pub const MIN_IDLE_SAMPLES: usize = 5;

/// The time from `earlier` to `now`, zero if `earlier` lies ahead.
pub open spec fn elapsed_time(now: u128, earlier: u128) -> u128 {
    if now > earlier {
        (now - earlier) as u128
    } else {
        0
    }
}

/// The time from `earlier` to `now`, zero if `earlier` lies ahead.
pub fn elapsed(now: u128, earlier: u128) -> (r: u128)
    ensures
        r == elapsed_time(now, earlier),
{
    if now > earlier {
        now - earlier
    } else {
        0
    }
}

/// The lengths of time that follow from a `CoDelConfig`, in nanoseconds.
#[derive(Clone, Copy, PartialEq, Eq, Structural, Debug)]
pub struct CoDelWindows {
    /// Twice the interval.
    pub double_interval: u128,
    /// The interval times the number of consecutive intervals.
    pub sustained: u128,
    /// Half the target.
    pub half_target: u128,
}

/// A request to add pods.
#[derive(Debug)]
pub struct ScaleAction {
    pub service: String,
    pub instances: u32,
    pub status_code: Option<u16>,
}

/// The latency of one request and when it was measured.
pub type Sample = (u128, u128);

/// The samples not older than `interval`.
pub open spec fn recent(samples: Seq<Sample>, now: u128, interval: u128) -> Seq<Sample> {
    samples.filter(|s: Sample| elapsed_time(now, s.0) <= interval)
}

/// Every sample took longer than `limit`.
pub open spec fn all_above(samples: Seq<Sample>, limit: u128) -> bool {
    forall|i: int| 0 <= i < samples.len() ==> (#[trigger] samples[i]).1 > limit
}

/// Every sample took less than `limit`.
pub open spec fn all_below(samples: Seq<Sample>, limit: u128) -> bool {
    forall|i: int| 0 <= i < samples.len() ==> (#[trigger] samples[i]).1 < limit
}

/// How many samples at the front are older than `max_age`.
pub open spec fn stale_count(samples: Seq<Sample>, now: u128, max_age: u128) -> nat
    decreases samples.len(),
{
    if samples.len() > 0 && elapsed_time(now, samples[0].0) > max_age {
        1 + stale_count(samples.skip(1), now, max_age)
    } else {
        0
    }
}

/// The samples that stay once `samples` is trimmed: none at the front that is
/// older than `max_age`, and no more than the newest thousand.
pub open spec fn trimmed(samples: Seq<Sample>, now: u128, max_age: u128) -> Seq<Sample> {
    let fresh = samples.skip(stale_count(samples, now, max_age) as int);
    if fresh.len() > MAX_SAMPLES {
        fresh.skip(fresh.len() - MAX_SAMPLES)
    } else {
        fresh
    }
}

/// The total of the sampled latencies.
pub open spec fn total(samples: Seq<Sample>) -> nat
    decreases samples.len(),
{
    if samples.len() == 0 {
        0
    } else {
        total(samples.drop_last()) + samples.last().1 as nat
    }
}

/// The latency samples of a service.
#[derive(Debug)]
pub struct CoDelMetrics {
    service_name: String,
    sojourn_times: VecDeque<Sample>,
    first_above_time: Option<u128>,
    last_scale_time: u128,
    config: CoDelConfig,
    windows: CoDelWindows,
}

/// What a `CoDelMetrics` says.
pub struct CoDelState {
    pub service_name: Seq<char>,
    /// The samples, oldest first.
    pub samples: Seq<Sample>,
    /// Since when latency has been above target.
    pub above_since: Option<u128>,
    /// When pods were last added.
    pub last_scale_time: u128,
    pub config: CoDelConfig,
    pub windows: CoDelWindows,
}

impl View for CoDelMetrics {
    type V = CoDelState;

    closed spec fn view(&self) -> CoDelState {
        CoDelState {
            service_name: self.service_name@,
            samples: self.sojourn_times@,
            above_since: self.first_above_time,
            last_scale_time: self.last_scale_time,
            config: self.config,
            windows: self.windows,
        }
    }
}

impl CoDelState {
    /// The samples of the last interval.
    pub open spec fn recent_at(self, now: u128) -> Seq<Sample> {
        recent(self.samples, now, self.config.interval)
    }

    /// The state with one more sample; a slow one keeps old samples for twice as
    /// long.
    pub open spec fn sampled(self, sojourn_time: u128, now: u128) -> CoDelState {
        let max_age = if sojourn_time <= self.config.target {
            self.config.interval
        } else {
            self.windows.double_interval
        };
        CoDelState { samples: trimmed(self.samples.push((now, sojourn_time)), now, max_age), ..self }
    }

    /// Pods were added too short a time ago to add more.
    pub open spec fn cooling_down(self, now: u128) -> bool {
        elapsed_time(now, self.last_scale_time) < self.config.scale_cooldown
    }

    /// Enough recent samples, and every one of them above target.
    pub open spec fn overloaded(self, now: u128) -> bool {
        self.recent_at(now).len() >= MIN_OVERLOAD_SAMPLES && all_above(self.recent_at(now), self.config.target)
    }

    /// The state once traffic was looked at: without traffic there is no alarm.
    pub open spec fn traffic_checked(self, now: u128) -> CoDelState {
        if self.recent_at(now).len() == 0 {
            CoDelState { above_since: None, ..self }
        } else {
            self
        }
    }

    /// Latency has been above target for long enough to add a pod.
    pub open spec fn scale_due(self, now: u128) -> bool {
        &&& !self.cooling_down(now)
        &&& self.overloaded(now)
        &&& self.above_since is Some
        &&& elapsed_time(now, self.above_since->0) >= self.windows.sustained
    }

    /// The state once load was judged at `now`.
    pub open spec fn judged(self, now: u128) -> CoDelState {
        if self.cooling_down(now) || self.recent_at(now).len() < MIN_OVERLOAD_SAMPLES {
            self
        } else if !all_above(self.recent_at(now), self.config.target) {
            CoDelState { above_since: None, ..self }
        } else if self.above_since is None {
            CoDelState { above_since: Some(now), ..self }
        } else if self.scale_due(now) {
            CoDelState { above_since: None, last_scale_time: now, ..self }
        } else {
            self
        }
    }

    /// The service has no recent traffic, or little enough latency to lose a pod.
    pub open spec fn idle(self, now: u128) -> bool {
        let r = self.recent_at(now);
        ||| r.len() == 0
        ||| {
            &&& r.len() >= MIN_IDLE_SAMPLES
            &&& all_below(r, self.windows.half_target)
            &&& total(r) / r.len() < self.windows.half_target
        }
    }

    /// The service should turn requests away.
    pub open spec fn rejecting(self, now: u128) -> bool {
        &&& self.samples.len() >= MIN_OVERLOAD_SAMPLES
        &&& self.recent_at(now).len() > 0
        &&& all_above(self.recent_at(now), self.config.target)
    }
}

/// The number of recent samples, and their least and greatest latency.
struct RecentSummary {
    count: usize,
    min: u128,
    max: u128,
}

/// A sample kept by a filter comes from the filtered sequence.
proof fn lemma_recent_push(samples: Seq<Sample>, s: Sample, now: u128, interval: u128)
    ensures
        recent(samples.push(s), now, interval) == (if elapsed_time(now, s.0) <= interval {
            recent(samples, now, interval).push(s)
        } else {
            recent(samples, now, interval)
        }),
{
    reveal(Seq::filter);
    assert(samples.push(s).drop_last() =~= samples);
}

impl CoDelMetrics {
    /// No samples yet; the clock for the next scaling action starts now.
    pub fn new(service_name: String, config: CoDelConfig, windows: CoDelWindows, now: u128) -> (r: Self)
        ensures
            r@ == (CoDelState {
                service_name: service_name@,
                samples: Seq::empty(),
                above_since: None,
                last_scale_time: now,
                config,
                windows,
            }),
    {
        CoDelMetrics {
            service_name,
            sojourn_times: VecDeque::new(),
            first_above_time: None,
            last_scale_time: now,
            config,
            windows,
        }
    }

    /// How many samples are recent, and their extremes.
    fn summary(&self, now: u128) -> (r: RecentSummary)
        ensures
            r.count == self@.recent_at(now).len(),
            r.count > 0 ==> (forall|i: int|
                0 <= i < r.count ==> r.min <= (#[trigger] self@.recent_at(now)[i]).1 <= r.max),
            r.count > 0 ==> (exists|i: int| 0 <= i < r.count && (#[trigger] self@.recent_at(now)[i]).1 == r.min),
            r.count > 0 ==> (exists|i: int| 0 <= i < r.count && (#[trigger] self@.recent_at(now)[i]).1 == r.max),
    {
        let mut count: usize = 0;
        let mut min: u128 = 0;
        let mut max: u128 = 0;
        let mut i: usize = 0;
        let interval: u128 = self.config.interval;
        assert(self.sojourn_times@.take(0) =~= Seq::empty());
        assert(recent(Seq::empty(), now, interval) =~= Seq::empty()) by {
            reveal(Seq::filter);
        }
        while i < self.sojourn_times.len()
            invariant
                i <= self.sojourn_times@.len(),
                interval == self.config.interval,
                count <= i,
                count == recent(self.sojourn_times@.take(i as int), now, interval).len(),
                count > 0 ==> (forall|j: int|
                    0 <= j < count ==> min <= (#[trigger] recent(
                        self.sojourn_times@.take(i as int),
                        now,
                        interval,
                    )[j]).1 <= max),
                count > 0 ==> (exists|j: int|
                    0 <= j < count && (#[trigger] recent(self.sojourn_times@.take(i as int), now, interval)[j]).1
                        == min),
                count > 0 ==> (exists|j: int|
                    0 <= j < count && (#[trigger] recent(self.sojourn_times@.take(i as int), now, interval)[j]).1
                        == max),
            decreases self.sojourn_times@.len() - i,
        {
            let s: Sample = self.sojourn_times[i];
            let ghost before = recent(self.sojourn_times@.take(i as int), now, interval);
            proof {
                lemma_recent_push(self.sojourn_times@.take(i as int), s, now, interval);
                assert(self.sojourn_times@.take(i + 1) =~= self.sojourn_times@.take(i as int).push(s));
            }
            let ghost old_min = min;
            let ghost old_max = max;
            if elapsed(now, s.0) <= interval {
                if count == 0 || s.1 < min {
                    min = s.1;
                }
                if count == 0 || s.1 > max {
                    max = s.1;
                }
                proof {
                    let after = before.push(s);
                    assert(after[before.len() as int] == s);
                    if count > 0 {
                        let a = choose|j: int| 0 <= j < count && (#[trigger] before[j]).1 == old_min;
                        let b = choose|j: int| 0 <= j < count && (#[trigger] before[j]).1 == old_max;
                        assert(after[a] == before[a]);
                        assert(after[b] == before[b]);
                        assert forall|j: int| 0 <= j < count + 1 implies min <= (#[trigger] after[j]).1 <= max by {
                            if j < count {
                                assert(after[j] == before[j]);
                            }
                        }
                    }
                }
                count = count + 1;
            }
            i = i + 1;
        }
        assert(self.sojourn_times@.take(i as int) =~= self.sojourn_times@);
        proof {
            let r = self@.recent_at(now);
            if count > 0 {
                let a = choose|j: int| 0 <= j < count && (#[trigger] r[j]).1 == min;
                let b = choose|j: int| 0 <= j < count && (#[trigger] r[j]).1 == max;
                assert(r[a].1 == min && r[b].1 == max);
                assert(self@.recent_at(now)[a].1 == min);
                assert(self@.recent_at(now)[b].1 == max);
            }
        }
        RecentSummary { count, min, max }
    }

    /// Forgets that latency was above target once traffic has ceased.
    pub fn check_traffic(&mut self, now: u128)
        ensures
            final(self)@ == old(self)@.traffic_checked(now),
    {
        let s: RecentSummary = self.summary(now);
        if s.count == 0 && self.first_above_time.is_some() {
            self.first_above_time = None;
        }
    }

    /// Adds a sample and trims the old ones; a slow sample keeps them for twice
    /// as long.
    pub fn record_sojourn(&mut self, sojourn_time: u128, now: u128)
        ensures
            final(self)@ == old(self)@.sampled(sojourn_time, now),
    {
        self.sojourn_times.push_back((now, sojourn_time));
        let max_age: u128 = if sojourn_time <= self.config.target {
            self.config.interval
        } else {
            self.windows.double_interval
        };
        let ghost all = self.sojourn_times@;
        assert(all.skip(0) =~= all);
        let ghost mut dropped: int = 0;
        loop
            invariant
                0 <= dropped <= all.len(),
                self.sojourn_times@ == all.skip(dropped),
                stale_count(all, now, max_age) == dropped + stale_count(all.skip(dropped), now, max_age),
                self@ == (CoDelState { samples: self.sojourn_times@, ..old(self)@ }),
            ensures
                self.sojourn_times@ == all.skip(stale_count(all, now, max_age) as int),
                self@ == (CoDelState { samples: self.sojourn_times@, ..old(self)@ }),
                stale_count(all, now, max_age) <= all.len(),
            decreases all.len() - dropped,
        {
            if self.sojourn_times.len() == 0 {
                break;
            }
            let front: Sample = self.sojourn_times[0];
            if elapsed(now, front.0) > max_age {
                let _ = self.sojourn_times.pop_front();
                proof {
                    assert(all.skip(dropped).skip(1) =~= all.skip(dropped + 1));
                    dropped = dropped + 1;
                }
            } else {
                break;
            }
        }
        let ghost fresh = self.sojourn_times@;
        let ghost mut cut: int = 0;
        assert(fresh.skip(0) =~= fresh);
        while self.sojourn_times.len() > MAX_SAMPLES
            invariant
                0 <= cut <= fresh.len(),
                cut > 0 ==> cut <= fresh.len() - MAX_SAMPLES,
                self.sojourn_times@ == fresh.skip(cut),
                self@ == (CoDelState { samples: self.sojourn_times@, ..old(self)@ }),
            decreases fresh.len() - cut,
        {
            let _ = self.sojourn_times.pop_front();
            proof {
                assert(fresh.skip(cut).skip(1) =~= fresh.skip(cut + 1));
                cut = cut + 1;
            }
        }
    }

    /// Whether to turn requests away: every recent sample is above target.
    pub fn should_reject(&self, now: u128) -> (r: bool)
        ensures
            r == self@.rejecting(now),
    {
        if self.sojourn_times.len() < MIN_OVERLOAD_SAMPLES {
            return false;
        }
        let s: RecentSummary = self.summary(now);
        s.count > 0 && s.min > self.config.target
    }

    /// Asks for one more pod once latency has been above target for long
    /// enough, and not while a former request is still cooling down.
    pub fn check_state(&mut self, now: u128) -> (r: Option<ScaleAction>)
        ensures
            final(self)@ == old(self)@.judged(now),
            r is Some <==> old(self)@.scale_due(now),
            r matches Some(a) ==> a.service@ == old(self)@.service_name && a.instances == 1 && a.status_code is None,
            r matches Some(a) ==> is_request(a, old(self)@),
    {
        let s: RecentSummary = self.summary(now);
        if elapsed(now, self.last_scale_time) < self.config.scale_cooldown {
            return None;
        }
        if s.count < MIN_OVERLOAD_SAMPLES {
            return None;
        }
        if s.min > self.config.target {
            match self.first_above_time {
                None => {
                    self.first_above_time = Some(now);
                    None
                },
                Some(since) => {
                    if elapsed(now, since) >= self.windows.sustained {
                        self.last_scale_time = now;
                        self.first_above_time = None;
                        Some(ScaleAction { service: self.service_name.clone(), instances: 1, status_code: None })
                    } else {
                        None
                    }
                },
            }
        } else {
            self.first_above_time = None;
            None
        }
    }

    /// Whether the service can do with one pod less.
    pub fn can_scale_down(&self, now: u128) -> (r: bool)
        ensures
            r == self@.idle(now),
    {
        let s: RecentSummary = self.summary(now);
        if s.count == 0 {
            return true;
        }
        if s.count < MIN_IDLE_SAMPLES {
            return false;
        }
        proof {
            if all_below(self@.recent_at(now), self@.windows.half_target) {
                lemma_mean_below(self@.recent_at(now), self@.windows.half_target);
            }
        }
        s.max < self.windows.half_target
    }
}

/// The latency samples of every service.
pub type MetricsStore = DashMap<String, CoDelMetrics>;

/// What a store holds, by the text of each service name.
pub uninterp spec fn kept_metrics(m: DashMap<String, CoDelMetrics>) -> Map<Seq<char>, CoDelMetrics>;

/// `DashMap::new`: the new store holds nothing.
#[verifier::external_body]
fn empty_metrics() -> (r: DashMap<String, CoDelMetrics>)
    ensures
        (kept_metrics(r) == Map::<Seq<char>, CoDelMetrics>::empty()),
{
    DashMap::new()
}

/// `DashMap::remove`: the service holds nothing; what it held comes back.
#[verifier::external_body]
fn take_metrics(m: &mut DashMap<String, CoDelMetrics>, name: &str) -> (r: Option<CoDelMetrics>)
    ensures
        kept_metrics(*final(m)) == kept_metrics(*old(m)).remove(name@),
        r == (if kept_metrics(*old(m)).contains_key(name@) { Some(kept_metrics(*old(m))[name@]) } else { None }),
{
    m.remove(name).map(|e| e.1)
}

/// `DashMap::insert`: the service now holds the samples.
#[verifier::external_body]
fn put_metrics(m: &mut DashMap<String, CoDelMetrics>, name: String, metrics: CoDelMetrics)
    ensures
        kept_metrics(*final(m)) == kept_metrics(*old(m)).insert(name@, metrics),
{
    let _ = m.insert(name, metrics);
}

/// A store without samples.
pub fn initialize_codel_metrics() -> (r: MetricsStore)
    ensures
        forall|k: Seq<char>| !kept_metrics(r).contains_key(k),
{
    empty_metrics()
}

/// Samples, copied.
fn copy_metrics(c: &CoDelMetrics) -> (r: CoDelMetrics)
    ensures
        r@ == c@,
{
    let mut samples: VecDeque<Sample> = VecDeque::new();
    let mut i: usize = 0;
    while i < c.sojourn_times.len()
        invariant
            i <= c.sojourn_times@.len(),
            samples@ == c.sojourn_times@.take(i as int),
        decreases c.sojourn_times@.len() - i,
    {
        samples.push_back(c.sojourn_times[i]);
        assert(samples@ =~= c.sojourn_times@.take(i + 1));
        i = i + 1;
    }
    assert(samples@ =~= c.sojourn_times@);
    CoDelMetrics {
        service_name: c.service_name.clone(),
        sojourn_times: samples,
        first_above_time: c.first_above_time,
        last_scale_time: c.last_scale_time,
        config: c.config,
        windows: c.windows,
    }
}

/// No samples yet, as of now.
pub open spec fn no_samples(service: Seq<char>, config: CoDelConfig, windows: CoDelWindows, now: u128) -> CoDelState {
    CoDelState {
        service_name: service,
        samples: Seq::empty(),
        above_since: None,
        last_scale_time: now,
        config,
        windows,
    }
}

/// The samples of a service. They are in the store afterwards, also where the
/// service had none before; what becomes of the result goes back there with
/// `keep_service_metrics`.
pub fn get_service_metrics(
    m: &mut MetricsStore,
    service_name: &str,
    config: &CoDelConfig,
    windows: &CoDelWindows,
    now: u128,
) -> (r: CoDelMetrics)
    ensures
        r@ == (if kept_metrics(*old(m)).contains_key(service_name@) {
            kept_metrics(*old(m))[service_name@]@
        } else {
            no_samples(service_name@, *config, *windows, now)
        }),
        kept_metrics(*final(m)).dom() == kept_metrics(*old(m)).dom().insert(service_name@),
        kept_metrics(*final(m))[service_name@]@ == r@,
        forall|s: Seq<char>| s != service_name@ ==> #[trigger] kept_metrics(*final(m))[s] == kept_metrics(*old(m))[s],
{
    let kept: CoDelMetrics = match take_metrics(m, service_name) {
        Some(c) => c,
        None => CoDelMetrics::new(service_name.to_owned(), *config, *windows, now),
    };
    let r: CoDelMetrics = copy_metrics(&kept);
    put_metrics(m, service_name.to_owned(), kept);
    assert(kept_metrics(*m).dom() =~= kept_metrics(*old(m)).dom().insert(service_name@));
    r
}

/// Puts the samples of a service into the store.
pub fn keep_service_metrics(m: &mut MetricsStore, service_name: &str, metrics: CoDelMetrics)
    ensures
        kept_metrics(*final(m)) == kept_metrics(*old(m)).insert(service_name@, metrics),
{
    put_metrics(m, service_name.to_owned(), metrics);
}

/// A mean of latencies below a limit is below the limit.
proof fn lemma_mean_below(samples: Seq<Sample>, limit: u128)
    requires
        samples.len() > 0,
        all_below(samples, limit),
    ensures
        total(samples) / samples.len() < limit,
{
    lemma_total_below(samples, limit);
    let (t, n) = (total(samples) as int, samples.len() as int);
    assert(t / n < limit as int) by (nonlinear_arith)
        requires
            n > 0,
            t < n * (limit as int),
    ;
}

proof fn lemma_total_below(samples: Seq<Sample>, limit: u128)
    requires
        samples.len() > 0,
        all_below(samples, limit),
    ensures
        total(samples) < samples.len() * limit,
    decreases samples.len(),
{
    let rest = samples.drop_last();
    assert(samples.last().1 < limit) by {
        assert(samples[samples.len() - 1].1 < limit);
    }
    if rest.len() > 0 {
        assert(all_below(rest, limit)) by {
            assert forall|i: int| 0 <= i < rest.len() implies (#[trigger] rest[i]).1 < limit by {
                assert(rest[i] == samples[i]);
            }
        }
        lemma_total_below(rest, limit);
        let (n, l) = (rest.len() as int, limit as int);
        assert(n * l + l == (n + 1) * l) by (nonlinear_arith);
    } else {
        assert(total(rest) == 0);
        assert(samples.len() == 1);
    }
}

/// However many samples come in, at most a thousand are kept, and the newest is
/// always among them.
pub proof fn window_is_bounded_and_keeps_the_newest(samples: Seq<Sample>, s: Sample, max_age: u128)
    ensures
        trimmed(samples.push(s), s.0, max_age).len() <= MAX_SAMPLES,
        trimmed(samples.push(s), s.0, max_age).len() > 0,
        trimmed(samples.push(s), s.0, max_age).last() == s,
{
    lemma_stale_keeps_last(samples.push(s), s.0, max_age);
}

proof fn lemma_stale_keeps_last(samples: Seq<Sample>, now: u128, max_age: u128)
    requires
        samples.len() > 0,
        samples.last().0 == now,
    ensures
        stale_count(samples, now, max_age) < samples.len(),
    decreases samples.len(),
{
    if elapsed_time(now, samples[0].0) > max_age {
        assert(samples.len() > 1);
        assert(samples.skip(1).last() == samples.last());
        lemma_stale_keeps_last(samples.skip(1), now, max_age);
    }
}

/// After a pod was asked for, none is asked for again until the cooldown is
/// over.
pub proof fn no_second_request_during_cooldown(s: CoDelState, now: u128, later: u128)
    requires
        s.scale_due(now),
        elapsed_time(later, now) < s.config.scale_cooldown,
    ensures
        !s.judged(now).scale_due(later),
        s.judged(now).judged(later) == s.judged(now),
{
}

/// The first sight of high latency asks for nothing; it starts the clock.
pub proof fn first_sight_starts_the_clock(s: CoDelState, now: u128)
    requires
        s.overloaded(now),
        !s.cooling_down(now),
        s.above_since is None,
    ensures
        !s.scale_due(now),
        s.judged(now).above_since == Some(now),
{
}

/// One recent sample within the target is enough to clear the alarm.
pub proof fn one_good_sample_clears_the_alarm(s: CoDelState, now: u128, i: int)
    requires
        !s.cooling_down(now),
        s.recent_at(now).len() >= MIN_OVERLOAD_SAMPLES,
        0 <= i < s.recent_at(now).len(),
        s.recent_at(now)[i].1 <= s.config.target,
    ensures
        !s.scale_due(now),
        s.judged(now).above_since is None,
        !s.rejecting(now),
{
}

/// A service is never both overloaded and able to lose a pod, where half the
/// target is not above the target.
pub proof fn overload_and_idleness_exclude_each_other(s: CoDelState, now: u128)
    requires
        s.windows.half_target <= s.config.target,
    ensures
        !(s.idle(now) && s.overloaded(now)),
        !(s.idle(now) && s.rejecting(now)),
{
    let r = s.recent_at(now);
    if r.len() > 0 && all_above(r, s.config.target) && all_below(r, s.windows.half_target) {
        assert(r[0].1 > s.config.target);
        assert(r[0].1 < s.windows.half_target);
    }
}

/// Which of the samples were taken within `span` before `now`.
pub open spec fn taken_within(samples: Seq<Sample>, now: u128, span: u128) -> Set<int> {
    vstd::set_lib::set_int_range(0, samples.len() as int).filter(|i: int| now - samples[i].0 <= span)
}

/// The sample is one of those taken within `span` before `now`.
pub open spec fn is_within(samples: Seq<Sample>, now: u128, span: u128, s: Sample) -> bool {
    exists|i: int| #[trigger] taken_within(samples, now, span).contains(i) && samples[i] == s
}

/// The recent samples are those taken within the interval, each once.
proof fn lemma_taken_within(samples: Seq<Sample>, now: u128, span: u128)
    ensures
        recent(samples, now, span).len() == taken_within(samples, now, span).len(),
        forall|i: int| #[trigger]
            taken_within(samples, now, span).contains(i) ==> recent(samples, now, span).contains(samples[i]),
        forall|j: int|
            0 <= j < recent(samples, now, span).len() ==> is_within(samples, now, span, #[trigger] recent(
                samples,
                now,
                span,
            )[j]),
    decreases samples.len(),
{
    reveal(Seq::filter);
    let n = samples.len() as int;
    vstd::set_lib::lemma_int_range(0, n);
    let all = taken_within(samples, now, span);
    let kept = recent(samples, now, span);
    if n == 0 {
        assert(all =~= Set::<int>::empty());
    } else {
        let front = samples.drop_last();
        lemma_taken_within(front, now, span);
        vstd::set_lib::lemma_int_range(0, n - 1);
        let some = taken_within(front, now, span);
        let before = recent(front, now, span);
        if now - samples.last().0 <= span {
            assert(all =~= some.insert(n - 1));
            assert(kept == before.push(samples.last()));
            assert(kept[before.len() as int] == samples.last());
        } else {
            assert(all =~= some);
            assert(kept == before);
        }
        assert forall|i: int| #[trigger] all.contains(i) implies kept.contains(samples[i]) by {
            if i < n - 1 {
                assert(some.contains(i));
                assert(front[i] == samples[i]);
                let j = choose|j: int| 0 <= j < before.len() && before[j] == samples[i];
                assert(kept[j] == samples[i]);
            }
        }
        assert forall|j: int| 0 <= j < kept.len() implies is_within(samples, now, span, #[trigger] kept[j]) by {
            if j < before.len() {
                assert(kept[j] == before[j]);
                assert(is_within(front, now, span, before[j]));
                let i = choose|i: int| #[trigger] some.contains(i) && front[i] == before[j];
                assert(all.contains(i) && samples[i] == kept[j]);
            } else {
                assert(all.contains(n - 1) && samples[n - 1] == kept[j]);
            }
        }
    }
}

/// All recent samples are above a limit exactly where every sample taken within
/// the interval is; the same below a limit.
proof fn lemma_all_recent(c: CoDelState, now: u128, limit: u128)
    ensures
        c.recent_at(now).len() == taken_within(c.samples, now, c.config.interval).len(),
        all_above(c.recent_at(now), limit) == (forall|i: int| #[trigger]
            taken_within(c.samples, now, c.config.interval).contains(i) ==> c.samples[i].1 > limit),
        all_below(c.recent_at(now), limit) == (forall|i: int| #[trigger]
            taken_within(c.samples, now, c.config.interval).contains(i) ==> c.samples[i].1 < limit),
{
    lemma_taken_within(c.samples, now, c.config.interval);
    let all = taken_within(c.samples, now, c.config.interval);
    let kept = c.recent_at(now);
    assert forall|i: int| #[trigger] all.contains(i) implies exists|j: int|
        0 <= j < kept.len() && #[trigger] kept[j] == c.samples[i] by {
        assert(kept.contains(c.samples[i]));
    }
    if all_above(kept, limit) {
        assert forall|i: int| #[trigger] all.contains(i) implies c.samples[i].1 > limit by {
            let j = choose|j: int| 0 <= j < kept.len() && #[trigger] kept[j] == c.samples[i];
            assert(kept[j].1 > limit);
        }
    }
    if all_below(kept, limit) {
        assert forall|i: int| #[trigger] all.contains(i) implies c.samples[i].1 < limit by {
            let j = choose|j: int| 0 <= j < kept.len() && #[trigger] kept[j] == c.samples[i];
            assert(kept[j].1 < limit);
        }
    }
}

/// Requests are turned away exactly while there are at least ten samples, some
/// of them taken within the interval, and each of those took longer than the
/// target. Nothing else counts: neither an alarm, nor when pods were added.
pub proof fn requests_are_turned_away_under_overload(c: CoDelState, now: u128)
    ensures
        c.rejecting(now) <==> {
            &&& c.samples.len() >= 10
            &&& taken_within(c.samples, now, c.config.interval).len() > 0
            &&& forall|i: int| #[trigger]
                taken_within(c.samples, now, c.config.interval).contains(i) ==> c.samples[i].1 > c.config.target
        },
{
    lemma_all_recent(c, now, c.config.target);
}

/// Whether requests are turned away and whether a pod can go depends on the
/// samples and the configuration alone: two states that agree in these agree in
/// both.
pub proof fn samples_alone_decide_on_rejection_and_idleness(a: CoDelState, b: CoDelState, now: u128)
    requires
        a.samples == b.samples,
        a.config == b.config,
        a.windows == b.windows,
    ensures
        a.rejecting(now) == b.rejecting(now),
        a.idle(now) == b.idle(now),
        a.overloaded(now) == b.overloaded(now),
{
}

/// Judging the load and looking at the traffic change neither the samples nor the
/// configuration, and so neither whether requests are turned away nor whether a
/// pod can go.
pub proof fn looking_changes_no_samples(c: CoDelState, looked: u128, now: u128)
    ensures
        c.judged(looked).samples == c.samples,
        c.judged(looked).config == c.config,
        c.judged(looked).windows == c.windows,
        c.judged(looked).service_name == c.service_name,
        c.traffic_checked(looked).samples == c.samples,
        c.traffic_checked(looked).config == c.config,
        c.traffic_checked(looked).windows == c.windows,
        c.traffic_checked(looked).service_name == c.service_name,
        c.traffic_checked(looked).last_scale_time == c.last_scale_time,
        c.judged(looked).rejecting(now) == c.rejecting(now),
        c.judged(looked).idle(now) == c.idle(now),
        c.traffic_checked(looked).rejecting(now) == c.rejecting(now),
        c.traffic_checked(looked).idle(now) == c.idle(now),
{
}

/// The alarm that latency is above target ends with the traffic, and only with it,
/// when the traffic is looked at.
pub proof fn alarms_end_with_the_traffic(c: CoDelState, now: u128)
    ensures
        c.traffic_checked(now).above_since == (if taken_within(c.samples, now, c.config.interval).len() == 0 {
            None
        } else {
            c.above_since
        }),
{
    lemma_all_recent(c, now, 0);
}

/// A pod can go exactly where no sample was taken within the interval, or at least
/// five were and each of them took less than half the target.
pub proof fn pods_can_go_while_latency_is_low(c: CoDelState, now: u128)
    ensures
        c.idle(now) <==> {
            let recent = taken_within(c.samples, now, c.config.interval);
            ||| recent.len() == 0
            ||| recent.len() >= 5 && forall|i: int| #[trigger]
                recent.contains(i) ==> c.samples[i].1 < c.windows.half_target
        },
{
    lemma_all_recent(c, now, c.windows.half_target);
    let r = c.recent_at(now);
    if r.len() > 0 && all_below(r, c.windows.half_target) {
        lemma_mean_below(r, c.windows.half_target);
    }
}

/// At least ten samples were taken within the interval, and each took longer than
/// the target.
pub open spec fn slow_throughout(c: CoDelState, now: u128) -> bool {
    &&& taken_within(c.samples, now, c.config.interval).len() >= 10
    &&& forall|i: int| #[trigger]
        taken_within(c.samples, now, c.config.interval).contains(i) ==> c.samples[i].1 > c.config.target
}

/// A pod is asked for exactly where the cooldown is over, all samples are slow, and
/// they have been for the sustained time.
pub proof fn pods_are_asked_for_under_sustained_load(c: CoDelState, now: u128)
    ensures
        c.scale_due(now) <==> {
            &&& c.config.scale_cooldown == 0 || now - c.last_scale_time >= c.config.scale_cooldown
            &&& slow_throughout(c, now)
            &&& c.above_since matches Some(t) && (c.windows.sustained == 0 || now - t >= c.windows.sustained)
        },
        c.overloaded(now) == slow_throughout(c, now),
{
    lemma_all_recent(c, now, c.config.target);
}

/// Slow samples raise the alarm, which asks for nothing yet. If they are still slow
/// after the sustained time, one pod is asked for; then the alarm is off, and
/// nothing is asked for during the cooldown.
pub proof fn sustained_load_is_answered_once(c: CoDelState, first: u128, second: u128, third: u128)
    requires
        c.above_since is None,
        first - c.last_scale_time >= c.config.scale_cooldown,
        slow_throughout(c, first),
        slow_throughout(c, second),
        second >= first + c.windows.sustained,
        third - second < c.config.scale_cooldown,
    ensures
        !c.scale_due(first),
        c.judged(first).above_since == Some(first),
        c.judged(first).last_scale_time == c.last_scale_time,
        c.judged(first).scale_due(second),
        c.judged(first).judged(second).above_since is None,
        c.judged(first).judged(second).last_scale_time == second,
        c.config.scale_cooldown > 0 ==> !c.judged(first).judged(second).scale_due(third),
{
    lemma_all_recent(c, first, c.config.target);
    lemma_all_recent(c, second, c.config.target);
}

/// What judging the load does to the alarm and to the time of the last request:
/// nothing during the cooldown or with fewer than ten samples within the interval;
/// otherwise the alarm is off after one sample within the target, stays as it was
/// raised while all are slow, and goes off with a request.
pub proof fn alarms_follow_the_load(c: CoDelState, now: u128)
    ensures
        now - c.last_scale_time < c.config.scale_cooldown && c.config.scale_cooldown > 0 ==> c.judged(now) == c,
        taken_within(c.samples, now, c.config.interval).len() < 10 ==> c.judged(now) == c,
        c.judged(now).last_scale_time != c.last_scale_time ==> c.scale_due(now) && c.judged(now).last_scale_time == now,
        c.scale_due(now) ==> c.judged(now).last_scale_time == now && c.judged(now).above_since is None,
        (c.config.scale_cooldown == 0 || now - c.last_scale_time >= c.config.scale_cooldown) && taken_within(
            c.samples,
            now,
            c.config.interval,
        ).len() >= 10 && !slow_throughout(c, now) ==> c.judged(now).above_since is None
            && c.judged(now).last_scale_time == c.last_scale_time,
        slow_throughout(c, now) && !c.scale_due(now) && c.above_since is Some ==> c.judged(now) == c,
{
    lemma_all_recent(c, now, c.config.target);
}

/// A new sample is kept, at the end. Of the others the newest stay, a thousand at
/// most; where there are fewer, those that went are older than the interval, or
/// than twice the interval after a slow sample, and the oldest that stays is not.
pub proof fn samples_go_when_they_are_old(c: CoDelState, latency: u128, now: u128)
    ensures
        ({
            let all = c.samples.push((now, latency));
            let after = c.sampled(latency, now);
            let gone = all.len() - after.samples.len();
            let age = if latency > c.config.target {
                c.windows.double_interval
            } else {
                c.config.interval
            };
            &&& 0 < after.samples.len() <= 1000
            &&& gone >= 0
            &&& after.samples == all.skip(gone)
            &&& after.samples.last() == (now, latency)
            &&& after.samples.len() < 1000 ==> {
                &&& now - after.samples[0].0 <= age
                &&& forall|i: int| 0 <= i < gone ==> now - (#[trigger] all[i]).0 > age
            }
            &&& after.above_since == c.above_since
            &&& after.last_scale_time == c.last_scale_time
            &&& after.config == c.config
            &&& after.windows == c.windows
            &&& after.service_name == c.service_name
        }),
{
    let all = c.samples.push((now, latency));
    let age = if latency > c.config.target {
        c.windows.double_interval
    } else {
        c.config.interval
    };
    lemma_stale_keeps_last(all, now, age);
    lemma_stale_are_old(all, now, age);
    let n = stale_count(all, now, age) as int;
    let fresh = all.skip(n);
    if fresh.len() > 1000 {
        assert(fresh.skip(fresh.len() - 1000) =~= all.skip(all.len() - 1000));
    }
}

/// What is dropped from the front is old, and the first that is left is not.
proof fn lemma_stale_are_old(samples: Seq<Sample>, now: u128, max_age: u128)
    ensures
        stale_count(samples, now, max_age) <= samples.len(),
        forall|i: int| 0 <= i < stale_count(samples, now, max_age) ==> now - (#[trigger] samples[i]).0 > max_age,
        stale_count(samples, now, max_age) < samples.len() ==> now - samples[stale_count(
            samples,
            now,
            max_age,
        ) as int].0 <= max_age,
    decreases samples.len(),
{
    if samples.len() > 0 && elapsed_time(now, samples[0].0) > max_age {
        let rest = samples.skip(1);
        lemma_stale_are_old(rest, now, max_age);
        let n = stale_count(samples, now, max_age) as int;
        assert forall|i: int| 0 <= i < n implies now - (#[trigger] samples[i]).0 > max_age by {
            if i > 0 {
                assert(rest[i - 1] == samples[i]);
            }
        }
    }
}

/// `a` asks for a pod for the service.
pub open spec fn is_request(a: ScaleAction, c: CoDelState) -> bool {
    a.service@ == c.service_name && a.instances == 1 && a.status_code is None
}

/// A request is for one pod of the service whose latency it is, and turns no request away.
pub proof fn one_pod_is_asked_for(a: ScaleAction, c: CoDelState)
    requires
        is_request(a, c),
    ensures
        a.service@ == c.service_name,
        a.instances == 1,
        a.status_code is None,
{
}

} // verus!
