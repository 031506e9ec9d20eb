//! One upstream endpoint: its outbound limits, its health and what is known of its speed and height.
use crate::health::{
    FailureSignal, FaultKind, HealthState, HealthStatus, ERROR_WINDOW, MAX_DELAY, MAX_INSTANT,
    SECOND,
};
use crate::state::HealthSnapshot;
use crate::text;
use std::collections::VecDeque;
use vstd::prelude::*;

verus! {

/// A token bucket that refills with the passing of time.
#[verifier::external_body]
pub struct TokenBucket {
    limiter: governor::DefaultDirectRateLimiter,
}

/// The tokens per second that a bucket was made for.
pub uninterp spec fn bucket_rate(bucket: TokenBucket) -> u32;

/// Whether no token has been drawn from a bucket yet.
pub uninterp spec fn bucket_undrawn(bucket: TokenBucket) -> bool;

/// `governor::RateLimiter::direct` with a quota of `rps` cells per second and a burst of the same
/// size. No token has been drawn from it. What checks after the first one say depends on the clock.
#[verifier::external_body]
fn new_bucket(rps: u32) -> (bucket: TokenBucket)
    requires
        rps > 0,
    ensures
        bucket_rate(bucket) == rps,
        bucket_undrawn(bucket),
{
    let cells = std::num::NonZeroU32::new(rps).unwrap_or(std::num::NonZeroU32::MIN);
    let quota = governor::Quota::per_second(cells).allow_burst(cells);
    TokenBucket { limiter: governor::RateLimiter::direct(quota) }
}

/// `RateLimiter::check` takes a token if the bucket holds one at this moment. The first check of a
/// bucket finds one whatever the clock says: a limiter without an earlier arrival measures from this
/// moment. Whether a later check does depends on the clock, so nothing is claimed of its answer. The
/// quota stays as it is.
#[verifier::external_body]
fn take_token(bucket: &mut TokenBucket) -> (taken: bool)
    ensures
        bucket_rate(*final(bucket)) == bucket_rate(*old(bucket)),
        bucket_undrawn(*old(bucket)) ==> taken,
        !bucket_undrawn(*final(bucket)),
{
    bucket.limiter.check().is_ok()
}

/// What a caller sees of an endpoint's health.
#[derive(Clone, Copy, Debug, PartialEq, Eq, Structural)]
pub enum EndpointState {
    Active,
    Cooling { until: u128, strikes: u32 },
    Probation { passes: u8 },
}

/// Counters of one endpoint.
#[derive(Clone, Copy, Debug, PartialEq, Eq, Structural)]
pub struct EndpointStatsSnapshot {
    pub outbound_requests: u64,
    pub failures: u64,
    pub rate_limited: u64,
    pub cooling_events: u64,
    pub probe_successes: u64,
}

pub open spec fn no_stats() -> EndpointStatsSnapshot {
    EndpointStatsSnapshot {
        outbound_requests: 0,
        failures: 0,
        rate_limited: 0,
        cooling_events: 0,
        probe_successes: 0,
    }
}

impl Default for EndpointStatsSnapshot {
    fn default() -> (s: Self)
        ensures
            s == no_stats(),
    {
        EndpointStatsSnapshot {
            outbound_requests: 0,
            failures: 0,
            rate_limited: 0,
            cooling_events: 0,
            probe_successes: 0,
        }
    }
}

/// The next value of a counter that starts over at its end.
pub open spec fn counted(n: u64) -> u64 {
    if n == u64::MAX {
        0
    } else {
        (n + 1) as u64
    }
}

fn count_up(n: u64) -> (r: u64)
    ensures
        r == counted(n),
{
    if n == u64::MAX {
        0
    } else {
        n + 1
    }
}

/// Outcomes that are too old at `now` are dropped from the front.
pub open spec fn pruned(outcomes: Seq<(u128, bool)>, now: u128) -> Seq<(u128, bool)>
    decreases outcomes.len(),
{
    if outcomes.len() > 0 && crate::health::span(now, outcomes[0].0) > ERROR_WINDOW {
        pruned(outcomes.skip(1), now)
    } else {
        outcomes
    }
}

/// How many of the outcomes are failures.
pub open spec fn failures_in(outcomes: Seq<(u128, bool)>) -> nat {
    outcomes.filter(|o: (u128, bool)| o.1).len()
}

/// The outcomes of the last requests, oldest first.
pub struct OutcomeWindow {
    entries: VecDeque<(u128, bool)>,
}

impl OutcomeWindow {
    pub closed spec fn view(&self) -> Seq<(u128, bool)> {
        self.entries@
    }

    pub fn new() -> (w: Self)
        ensures
            w@ == Seq::<(u128, bool)>::empty(),
    {
        OutcomeWindow { entries: VecDeque::new() }
    }

    pub fn prune(&mut self, now: u128)
        ensures
            final(self)@ == pruned(old(self)@, now),
    {
        let ghost all = self.entries@;
        loop
            invariant
                pruned(all, now) == pruned(self.entries@, now),
            ensures
                self.entries@ == pruned(all, now),
            decreases self.entries@.len(),
        {
            if self.entries.len() == 0 {
                break ;
            }
            let at: u128 = self.entries[0].0;
            if !(now > at && now - at > ERROR_WINDOW) {
                break ;
            }
            let ghost before = self.entries@;
            let _ = self.entries.pop_front();
            assert(self.entries@ =~= before.skip(1));
        }
    }

    pub fn record(&mut self, now: u128, failed: bool)
        ensures
            final(self)@ == pruned(old(self)@, now).push((now, failed)),
    {
        self.prune(now);
        self.entries.push_back((now, failed));
    }

    /// How many outcomes the window holds at `now`, and how many of them are failures.
    pub fn tally(&mut self, now: u128) -> (t: (usize, usize))
        ensures
            final(self)@ == pruned(old(self)@, now),
            t.0 == failures_in(final(self)@),
            t.1 == final(self)@.len(),
            t.0 <= t.1,
    {
        self.prune(now);
        let n: usize = self.entries.len();
        let mut failures: usize = 0;
        let mut i: usize = 0;
        let ghost failed = |o: (u128, bool)| o.1;
        proof {
            assert(self.entries@.take(0) =~= Seq::<(u128, bool)>::empty());
            reveal(Seq::filter);
        }
        while i < n
            invariant
                i <= n,
                n == self.entries@.len(),
                failed == (|o: (u128, bool)| o.1),
                failures == self.entries@.take(i as int).filter(failed).len(),
                failures <= i,
                self.entries@ == pruned(old(self)@, now),
            decreases n - i,
        {
            proof {
                let next = self.entries@.take(i + 1);
                assert(next.drop_last() =~= self.entries@.take(i as int));
                assert(next.last() == self.entries@[i as int]);
                reveal(Seq::filter);
            }
            if self.entries[i].1 {
                failures = failures + 1;
            }
            i = i + 1;
        }
        assert(self.entries@.take(n as int) =~= self.entries@);
        (failures, n)
    }
}

/// What an endpoint's preference is worked out from: the smoothed latency, the failures among the
/// recent outcomes, the distance from the head of the chain and the slots in use.
#[derive(Clone, Copy, Debug, PartialEq, Eq, Structural)]
pub struct ScoreParts {
    pub latency_micros: u64,
    pub failures: usize,
    pub outcomes: usize,
    pub lag: u64,
    pub used_slots: usize,
    pub concurrency: usize,
}

/// The state of an endpoint, as contracts speak of it.
pub ghost struct EndpointView {
    pub url: Seq<char>,
    pub rps: u32,
    /// The tokens per second of the bucket that requests draw from.
    pub quota: u32,
    /// Whether no token has been drawn from that bucket yet.
    pub undrawn: bool,
    pub concurrency: usize,
    pub in_flight: usize,
    pub last_seen: u64,
    pub health: HealthState,
    pub outcomes: Seq<(u128, bool)>,
    pub latency: u64,
    pub lag: u64,
    pub height: Option<(u64, u128)>,
    pub stats: EndpointStatsSnapshot,
    pub probing: bool,
    pub dirty: bool,
}

pub open spec fn clamped(n: int, low: int, high: int) -> int {
    if n < low {
        low
    } else if n > high {
        high
    } else {
        n
    }
}

/// The smoothed latency after a sample: the first sample as it is, later ones with a weight of one
/// fifth.
pub open spec fn smoothed(previous: u64, sample: u64) -> u64 {
    if previous == 0 {
        sample
    } else {
        let weighted = if previous * 4 > u64::MAX {
            u64::MAX as int
        } else {
            previous * 4
        };
        let sum = if weighted + sample > u64::MAX {
            u64::MAX as int
        } else {
            weighted + sample
        };
        (sum / 5) as u64
    }
}

/// Whole microseconds of a time span.
pub open spec fn micros(latency: u128) -> u64 {
    if latency / 1000 > u64::MAX {
        u64::MAX
    } else {
        (latency / 1000) as u64
    }
}

impl EndpointView {
    /// A new endpoint: limits within their bounds, on probation, nothing known.
    pub open spec fn fresh(url: Seq<char>, rps: u32, concurrency: usize, now: u64) -> EndpointView {
        EndpointView {
            url,
            rps: clamped(rps as int, 1, 100) as u32,
            quota: clamped(rps as int, 1, 100) as u32,
            undrawn: true,
            concurrency: clamped(concurrency as int, 1, 64) as usize,
            in_flight: 0,
            last_seen: now,
            health: HealthState::fresh(),
            outcomes: Seq::empty(),
            latency: 0,
            lag: 0,
            height: None,
            stats: no_stats(),
            probing: false,
            dirty: true,
        }
    }

    pub open spec fn wf(self) -> bool {
        &&& 1 <= self.rps <= 100
        &&& self.quota == self.rps
        &&& 1 <= self.concurrency <= 64
        &&& self.in_flight <= self.concurrency
    }

    pub open spec fn observed_state(self) -> EndpointState {
        match self.health.status {
            HealthStatus::Active => EndpointState::Active,
            HealthStatus::Cooling { until } => EndpointState::Cooling {
                until,
                strikes: self.health.strikes,
            },
            HealthStatus::Probation { passes } => EndpointState::Probation { passes },
        }
    }

    pub open spec fn decayed(self, now: u128) -> EndpointView {
        EndpointView { health: self.health.decayed(now), ..self }
    }

    /// The endpoint with one more request under way.
    pub open spec fn acquired(self) -> EndpointView {
        EndpointView {
            in_flight: (self.in_flight + 1) as usize,
            stats: EndpointStatsSnapshot {
                outbound_requests: counted(self.stats.outbound_requests),
                ..self.stats
            },
            ..self
        }
    }

    /// With a token drawn and a slot taken.
    pub open spec fn leased(self) -> EndpointView {
        EndpointView { undrawn: false, ..self.acquired() }
    }

    pub open spec fn with_latency(self, latency: u128) -> EndpointView {
        EndpointView { latency: smoothed(self.latency, micros(latency)), ..self }
    }

    pub open spec fn after_success(self, now: u128, latency: u128, probe: bool) -> EndpointView {
        EndpointView {
            dirty: true,
            outcomes: pruned(self.outcomes, now).push((now, false)),
            stats: if probe {
                EndpointStatsSnapshot {
                    probe_successes: counted(self.stats.probe_successes),
                    ..self.stats
                }
            } else {
                self.stats
            },
            health: self.health.after_success(now),
            ..self.with_latency(latency)
        }
    }

    pub open spec fn after_failure(self, now: u128, signal: FailureSignal) -> EndpointView {
        let health = self.health.after_failure(now, signal);
        let limited = signal.kind is RateLimited;
        let cooled = !(self.health.status is Cooling) && health.status is Cooling;
        EndpointView {
            dirty: true,
            outcomes: pruned(self.outcomes, now).push((now, true)),
            stats: EndpointStatsSnapshot {
                failures: counted(self.stats.failures),
                rate_limited: if limited {
                    counted(self.stats.rate_limited)
                } else {
                    self.stats.rate_limited
                },
                cooling_events: if cooled {
                    counted(self.stats.cooling_events)
                } else {
                    self.stats.cooling_events
                },
                ..self.stats
            },
            health,
            ..self
        }
    }

    /// Seconds until which a stored pause still runs at `now_unix`.
    pub open spec fn remaining_pause(snapshot: HealthSnapshot, now_unix: u64) -> int {
        let until = match snapshot.cooling_until_unix {
            Some(t) => t as int,
            None => 0,
        };
        if snapshot.state@ == "cooling"@ && until > now_unix {
            until - now_unix
        } else {
            0
        }
    }

    /// The endpoint with stored health put back: a pause that still runs goes on, every other
    /// endpoint has to prove itself again.
    pub open spec fn restored(
        self,
        snapshot: HealthSnapshot,
        now: u128,
        now_unix: u64,
    ) -> EndpointView {
        let remaining = EndpointView::remaining_pause(snapshot, now_unix);
        EndpointView {
            health: HealthState {
                strikes: snapshot.strikes,
                status: if remaining > 0 {
                    HealthStatus::Cooling { until: (now + remaining * SECOND) as u128 }
                } else {
                    HealthStatus::Probation { passes: 0 }
                },
                ..self.health
            },
            latency: snapshot.latency_ewma_us,
            lag: snapshot.lag,
            dirty: false,
            ..self
        }
    }

    /// What is stored of an endpoint whose health has been brought up to date at `now`.
    pub open spec fn snapshot_is(
        self,
        chain_id: u64,
        now: u128,
        now_unix: u64,
        snapshot: HealthSnapshot,
    ) -> bool {
        &&& snapshot.chain_id == chain_id
        &&& snapshot.url@ == self.url
        &&& snapshot.latency_ewma_us == self.latency
        &&& snapshot.lag == self.lag
        &&& match self.health.status {
            HealthStatus::Active => snapshot.state@ == "active"@ && snapshot.cooling_until_unix
                is None && snapshot.strikes == 0,
            HealthStatus::Probation { .. } => snapshot.state@ == "probation"@
                && snapshot.cooling_until_unix is None && snapshot.strikes == 0,
            HealthStatus::Cooling { until } => snapshot.state@ == "cooling"@
                && snapshot.cooling_until_unix == Some(pause_end(until, now, now_unix))
                && snapshot.strikes == self.health.strikes,
        }
    }

    /// The height seen at most `freshness` ago.
    pub open spec fn recent_height(self, now: u128, freshness: u128) -> Option<u64> {
        match self.height {
            Some((height, at)) if crate::health::span(now, at) <= freshness => Some(height),
            _ => None,
        }
    }
}

/// The second of the wall clock at which a pause ends, counted in whole seconds from now.
pub open spec fn pause_end(until: u128, now: u128, now_unix: u64) -> u64 {
    let end = now_unix + crate::health::span(until, now) / SECOND as int;
    if end > u64::MAX {
        u64::MAX
    } else {
        end as u64
    }
}

/// The right to have one request under way at an endpoint.
pub struct EndpointLease {
    url: String,
}

impl EndpointLease {
    pub closed spec fn url(&self) -> Seq<char> {
        self.url@
    }

    /// The endpoint that the lease is for.
    pub fn endpoint(&self) -> (u: &str)
        ensures
            u@ == self.url(),
    {
        self.url.as_str()
    }
}

pub struct Endpoint {
    url: String,
    rps: u32,
    concurrency: usize,
    bucket: TokenBucket,
    in_flight: usize,
    last_seen: u64,
    health: HealthState,
    outcomes: OutcomeWindow,
    latency_ewma_micros: u64,
    lag: u64,
    height_observation: Option<(u64, u128)>,
    stats: EndpointStatsSnapshot,
    probing: bool,
    dirty: bool,
}

impl Endpoint {
    pub closed spec fn view(&self) -> EndpointView {
        EndpointView {
            url: self.url@,
            rps: self.rps,
            quota: bucket_rate(self.bucket),
            undrawn: bucket_undrawn(self.bucket),
            concurrency: self.concurrency,
            in_flight: self.in_flight,
            last_seen: self.last_seen,
            health: self.health,
            outcomes: self.outcomes@,
            latency: self.latency_ewma_micros,
            lag: self.lag,
            height: self.height_observation,
            stats: self.stats,
            probing: self.probing,
            dirty: self.dirty,
        }
    }

    /// A new endpoint on probation. Limits outside their bounds are brought to the nearest bound.
    pub fn new(url: String, rps: u32, concurrency: usize, now: u64) -> (e: Self)
        ensures
            e@ == EndpointView::fresh(url@, rps, concurrency, now),
            e@.wf(),
    {
        let rps: u32 = if rps < 1 {
            1
        } else if rps > 100 {
            100
        } else {
            rps
        };
        let concurrency: usize = if concurrency < 1 {
            1
        } else if concurrency > 64 {
            64
        } else {
            concurrency
        };
        Endpoint {
            url,
            rps,
            concurrency,
            bucket: new_bucket(rps),
            in_flight: 0,
            last_seen: now,
            health: HealthState::probation(),
            outcomes: OutcomeWindow::new(),
            latency_ewma_micros: 0,
            lag: 0,
            height_observation: None,
            stats: EndpointStatsSnapshot::default(),
            probing: false,
            dirty: true,
        }
    }

    pub fn url(&self) -> (u: &str)
        ensures
            u@ == self@.url,
    {
        self.url.as_str()
    }

    pub fn rps(&self) -> (n: u32)
        ensures
            n == self@.rps,
    {
        self.rps
    }

    pub fn concurrency(&self) -> (n: usize)
        ensures
            n == self@.concurrency,
    {
        self.concurrency
    }

    pub fn last_seen(&self) -> (t: u64)
        ensures
            t == self@.last_seen,
    {
        self.last_seen
    }

    pub fn see(&mut self, now: u64)
        ensures
            final(self)@ == (EndpointView { last_seen: now, ..old(self)@ }),
    {
        self.last_seen = now;
    }

    /// The health at `now`, with the decay of strikes accounted for.
    pub fn state(&mut self, now: u128) -> (s: EndpointState)
        ensures
            final(self)@ == old(self)@.decayed(now),
            s == final(self)@.observed_state(),
    {
        self.health.decay_strikes(now);
        match self.health.status {
            HealthStatus::Active => EndpointState::Active,
            HealthStatus::Cooling { until } => EndpointState::Cooling {
                until,
                strikes: self.health.strikes,
            },
            HealthStatus::Probation { passes } => EndpointState::Probation { passes },
        }
    }

    pub fn is_active(&self) -> (r: bool)
        ensures
            r == self@.health.status is Active,
    {
        matches!(self.health.status, HealthStatus::Active)
    }

    pub fn is_probation(&self) -> (r: bool)
        ensures
            r == self@.health.status is Probation,
    {
        matches!(self.health.status, HealthStatus::Probation { .. })
    }

    pub fn is_cooling(&self) -> (r: bool)
        ensures
            r == self@.health.status is Cooling,
    {
        matches!(self.health.status, HealthStatus::Cooling { .. })
    }

    /// Starts a probe, unless one is under way or the endpoint still cools.
    pub fn begin_probe(&mut self, now: u128) -> (started: bool)
        ensures
            started == (!old(self)@.probing && old(self)@.health.may_probe(now)),
            final(self)@ == (if old(self)@.probing {
                old(self)@
            } else {
                EndpointView {
                    probing: started,
                    health: old(self)@.health.probed(now),
                    ..old(self)@
                }
            }),
    {
        if self.probing {
            return false;
        }
        let started = self.health.start_probe(now);
        self.probing = started;
        started
    }

    pub fn end_probe(&mut self)
        ensures
            final(self)@ == (EndpointView { probing: false, ..old(self)@ }),
    {
        self.probing = false;
    }

    /// Hands out a lease if a slot is free and the bucket gave a token.
    pub fn grant(&mut self, token: bool) -> (lease: Option<EndpointLease>)
        requires
            old(self)@.wf(),
        ensures
            final(self)@.wf(),
            lease is Some <==> token && old(self)@.in_flight < old(self)@.concurrency,
            lease matches Some(l) ==> l.url() == old(self)@.url && final(self)@ == old(self)@.acquired(),
            lease is None ==> final(self)@ == old(self)@,
    {
        if !token || self.in_flight >= self.concurrency {
            return None;
        }
        self.in_flight = self.in_flight + 1;
        self.stats.outbound_requests = count_up(self.stats.outbound_requests);
        Some(EndpointLease { url: self.url.clone() })
    }

    /// A lease with a slot and a token. Without a free slot there is none, and no token is drawn. With
    /// one, the first token is always there; whether a later one is depends on the clock.
    fn acquire_outbound(&mut self) -> (lease: Option<EndpointLease>)
        requires
            old(self)@.wf(),
        ensures
            final(self)@.wf(),
            lease matches Some(l) ==> l.url() == old(self)@.url && final(self)@ == old(self)@.leased(),
            lease is None ==> final(self)@ == old(self)@,
            old(self)@.in_flight >= old(self)@.concurrency ==> lease is None,
            old(self)@.in_flight < old(self)@.concurrency && old(self)@.undrawn ==> lease is Some,
    {
        if self.in_flight >= self.concurrency {
            return None;
        }
        let token = take_token(&mut self.bucket);
        self.grant(token)
    }

    /// A lease for ordinary traffic: never while the endpoint cools, never beyond its slots, and only
    /// with a token. The first token is always there; whether a later one is depends on the clock.
    pub fn try_acquire(&mut self) -> (lease: Option<EndpointLease>)
        requires
            old(self)@.wf(),
        ensures
            final(self)@.wf(),
            lease matches Some(l) ==> l.url() == old(self)@.url && !(old(self)@.health.status is Cooling) && old(self)@.in_flight < old(self)@.concurrency && final(self)@ == old(self)@.leased(),
            lease is None ==> final(self)@ == old(self)@,
            !(old(self)@.health.status is Cooling) && old(self)@.in_flight < old(self)@.concurrency
                && old(self)@.undrawn ==> lease is Some,
    {
        if self.is_cooling() {
            return None;
        }
        self.acquire_outbound()
    }

    /// A lease for a probe: as for ordinary traffic, but also while the endpoint cools.
    pub fn try_acquire_probe(&mut self) -> (lease: Option<EndpointLease>)
        requires
            old(self)@.wf(),
        ensures
            final(self)@.wf(),
            lease matches Some(l) ==> l.url() == old(self)@.url && old(self)@.in_flight < old(self)@.concurrency && final(self)@ == old(self)@.leased(),
            lease is None ==> final(self)@ == old(self)@,
            old(self)@.in_flight < old(self)@.concurrency && old(self)@.undrawn ==> lease is Some,
    {
        self.acquire_outbound()
    }

    /// Gives a lease back; its slot is free again.
    pub fn release(&mut self, lease: EndpointLease)
        requires
            old(self)@.wf(),
        ensures
            final(self)@.wf(),
            final(self)@ == (if lease.url() == old(self)@.url && old(self)@.in_flight > 0 {
                EndpointView { in_flight: (old(self)@.in_flight - 1) as usize, ..old(self)@ }
            } else {
                old(self)@
            }),
    {
        if self.in_flight > 0 && lease.url == self.url {
            self.in_flight = self.in_flight - 1;
        }
    }

    fn update_latency(&mut self, latency: u128)
        ensures
            final(self)@ == old(self)@.with_latency(latency),
    {
        let whole: u128 = latency / 1000;
        let sample: u64 = if whole > u64::MAX as u128 {
            u64::MAX
        } else {
            whole as u64
        };
        let previous: u64 = self.latency_ewma_micros;
        self.latency_ewma_micros = if previous == 0 {
            sample
        } else {
            let wide: u128 = previous as u128 * 4;
            let weighted: u64 = if wide > u64::MAX as u128 {
                u64::MAX
            } else {
                wide as u64
            };
            weighted.saturating_add(sample) / 5
        };
    }

    pub fn record_success(&mut self, now: u128, latency: u128, probe: bool)
        ensures
            final(self)@ == old(self)@.after_success(now, latency, probe),
    {
        self.dirty = true;
        self.update_latency(latency);
        self.outcomes.record(now, false);
        if probe {
            self.stats.probe_successes = count_up(self.stats.probe_successes);
        }
        self.health.record_success(now);
    }

    pub fn record_degraded(&mut self, now: u128, latency: u128, kind: FaultKind)
        requires
            now <= MAX_INSTANT,
        ensures
            final(self)@ == old(self)@.with_latency(latency).after_failure(
                now,
                FailureSignal { kind, retry_after: None },
            ),
    {
        self.update_latency(latency);
        self.record_failure(now, FailureSignal::new(kind));
    }

    pub fn record_failure(&mut self, now: u128, signal: FailureSignal)
        requires
            now <= MAX_INSTANT,
            signal.wf(),
        ensures
            final(self)@ == old(self)@.after_failure(now, signal),
    {
        self.dirty = true;
        self.stats.failures = count_up(self.stats.failures);
        if matches!(signal.kind, FaultKind::RateLimited) {
            self.stats.rate_limited = count_up(self.stats.rate_limited);
        }
        self.outcomes.record(now, true);
        if self.health.record_failure(now, signal) {
            self.stats.cooling_events = count_up(self.stats.cooling_events);
        }
    }

    /// What the endpoint's preference is worked out from.
    pub fn score_parts(&mut self, now: u128) -> (p: ScoreParts)
        requires
            old(self)@.wf(),
        ensures
            final(self)@ == (EndpointView {
                outcomes: pruned(old(self)@.outcomes, now),
                ..old(self)@
            }),
            p == (ScoreParts {
                latency_micros: old(self)@.latency,
                failures: failures_in(final(self)@.outcomes) as usize,
                outcomes: final(self)@.outcomes.len() as usize,
                lag: old(self)@.lag,
                used_slots: old(self)@.in_flight,
                concurrency: old(self)@.concurrency,
            }),
            p.failures == failures_in(final(self)@.outcomes),
            p.outcomes == final(self)@.outcomes.len(),
    {
        let (failures, outcomes) = self.outcomes.tally(now);
        ScoreParts {
            latency_micros: self.latency_ewma_micros,
            failures,
            outcomes,
            lag: self.lag,
            used_slots: self.in_flight,
            concurrency: self.concurrency,
        }
    }

    pub fn latency_ewma_micros(&self) -> (n: u64)
        ensures
            n == self@.latency,
    {
        self.latency_ewma_micros
    }

    pub fn lag(&self) -> (n: u64)
        ensures
            n == self@.lag,
    {
        self.lag
    }

    pub fn stats(&self) -> (s: EndpointStatsSnapshot)
        ensures
            s == self@.stats,
    {
        self.stats
    }

    /// What is stored of the endpoint's health. `now_unix` is the wall clock in seconds.
    pub fn health_snapshot(&mut self, chain_id: u64, now: u128, now_unix: u64) -> (s: HealthSnapshot)
        ensures
            final(self)@ == old(self)@.decayed(now),
            final(self)@.snapshot_is(chain_id, now, now_unix, s),
    {
        let state = self.state(now);
        let (name, cooling_until_unix, strikes): (&str, Option<u64>, u32) = match state {
            EndpointState::Active => ("active", None, 0),
            EndpointState::Probation { .. } => ("probation", None, 0),
            EndpointState::Cooling { until, strikes } => {
                let left: u128 = if until > now {
                    (until - now) / SECOND
                } else {
                    0
                };
                let end: u64 = if left > (u64::MAX - now_unix) as u128 {
                    u64::MAX
                } else {
                    now_unix + left as u64
                };
                ("cooling", Some(end), strikes)
            },
        };
        HealthSnapshot {
            chain_id,
            url: self.url.clone(),
            state: name.to_owned(),
            cooling_until_unix,
            strikes,
            latency_ewma_us: self.latency_ewma_micros,
            lag: self.lag,
        }
    }

    /// What is shown of the endpoint's health: its state, the passes or strikes that go with it, and the
    /// second of the wall clock at which a pause ends.
    pub fn shown_health(&self, now: u128, now_unix: u64) -> (r: (&'static str, u32, Option<u64>))
        ensures
            match self@.health.status {
                HealthStatus::Active => r.0@ == "active"@ && r.1 == 0 && r.2 is None,
                HealthStatus::Probation { passes } => r.0@ == "probation"@ && r.1 == passes && r.2
                    is None,
                HealthStatus::Cooling { until } => r.0@ == "cooling"@ && r.1 == self@.health.strikes
                    && r.2 == Some(pause_end(until, now, now_unix)),
            },
    {
        match self.health.status {
            HealthStatus::Active => ("active", 0, None),
            HealthStatus::Probation { passes } => ("probation", passes as u32, None),
            HealthStatus::Cooling { until } => {
                let left: u128 = if until > now {
                    (until - now) / SECOND
                } else {
                    0
                };
                let end: u64 = if left > (u64::MAX - now_unix) as u128 {
                    u64::MAX
                } else {
                    now_unix + left as u64
                };
                ("cooling", self.health.strikes, Some(end))
            },
        }
    }

    /// Puts stored health back.
    pub fn restore_health(&mut self, snapshot: &HealthSnapshot, now: u128, now_unix: u64)
        requires
            now <= MAX_INSTANT,
        ensures
            final(self)@ == old(self)@.restored(*snapshot, now, now_unix),
    {
        let until: u64 = match snapshot.cooling_until_unix {
            Some(t) => t,
            None => 0,
        };
        let remaining: u64 = if text::same(snapshot.state.as_str(), "cooling") && until > now_unix {
            until - now_unix
        } else {
            0
        };
        self.health.strikes = snapshot.strikes;
        self.health.status = if remaining > 0 {
            HealthStatus::Cooling { until: now + remaining as u128 * SECOND }
        } else {
            HealthStatus::Probation { passes: 0 }
        };
        self.latency_ewma_micros = snapshot.latency_ewma_us;
        self.lag = snapshot.lag;
        self.dirty = false;
    }

    /// Forgets strikes and faults; the endpoint is on probation again.
    pub fn reset_health(&mut self)
        ensures
            final(self)@ == (EndpointView {
                health: HealthState::fresh(),
                dirty: true,
                ..old(self)@
            }),
    {
        self.health = HealthState::probation();
        self.dirty = true;
    }

    /// Cools the endpoint from `now` on for the given time and adds a strike.
    pub fn cool_for(&mut self, now: u128, duration: u128)
        requires
            now <= MAX_INSTANT,
            duration <= MAX_DELAY,
        ensures
            final(self)@ == (EndpointView {
                health: HealthState {
                    status: HealthStatus::Cooling { until: (now + duration) as u128 },
                    strikes: crate::health::saturated_u32(old(self)@.health.strikes + 1),
                    healthy_since: None,
                    ..old(self)@.health
                },
                dirty: true,
                ..old(self)@
            }),
    {
        self.health.status = HealthStatus::Cooling { until: now + duration };
        self.health.strikes = self.health.strikes.saturating_add(1);
        self.health.healthy_since = None;
        self.dirty = true;
    }

    /// Whether the health changed since it was last taken.
    pub fn is_dirty(&self) -> (r: bool)
        ensures
            r == self@.dirty,
    {
        self.dirty
    }

    pub fn take_dirty(&mut self) -> (r: bool)
        ensures
            r == old(self)@.dirty,
            final(self)@ == (EndpointView { dirty: false, ..old(self)@ }),
    {
        let r = self.dirty;
        self.dirty = false;
        r
    }

    pub fn mark_dirty(&mut self)
        ensures
            final(self)@ == (EndpointView { dirty: true, ..old(self)@ }),
    {
        self.dirty = true;
    }

    pub fn observe_height(&mut self, height: u64, now: u128)
        ensures
            final(self)@ == (EndpointView {
                height: Some((height, now)),
                dirty: true,
                ..old(self)@
            }),
    {
        self.height_observation = Some((height, now));
        self.dirty = true;
    }

    pub fn recent_height(&self, now: u128, freshness: u128) -> (h: Option<u64>)
        ensures
            h == self@.recent_height(now, freshness),
    {
        match self.height_observation {
            Some((height, at)) => if now > at && now - at > freshness {
                None
            } else {
                Some(height)
            },
            None => None,
        }
    }

    pub fn set_lag(&mut self, lag: u64)
        ensures
            final(self)@ == (EndpointView { lag, dirty: true, ..old(self)@ }),
    {
        self.lag = lag;
        self.dirty = true;
    }
}

/// A restored endpoint is never in service: it either goes on cooling or starts over on probation.
pub proof fn lemma_restored_is_not_active(
    e: EndpointView,
    snapshot: HealthSnapshot,
    now: u128,
    now_unix: u64,
)
    ensures
        !(e.restored(snapshot, now, now_unix).health.status is Active),
        e.restored(snapshot, now, now_unix).health.status is Cooling <==> snapshot.state@
            == "cooling"@ && (snapshot.cooling_until_unix matches Some(t) && t > now_unix),
{
}

/// Storing a cooling endpoint and restoring it at the same moment keeps its strikes, and its pause
/// ends no later than before and less than a second earlier.
pub proof fn lemma_store_restore_keeps_cooling(
    e: EndpointView,
    other: EndpointView,
    chain_id: u64,
    now: u128,
    now_unix: u64,
    snapshot: HealthSnapshot,
)
    requires
        now <= MAX_INSTANT,
        e.health.status is Cooling,
        e.health.status->until >= now + SECOND,
        now_unix + e.health.status->until / SECOND <= u64::MAX,
        e.snapshot_is(chain_id, now, now_unix, snapshot),
    ensures
        ({
            let r = other.restored(snapshot, now, now_unix);
            &&& r.health.status is Cooling
            &&& r.health.strikes == e.health.strikes
            &&& r.health.status->until <= e.health.status->until
            &&& e.health.status->until - r.health.status->until < SECOND
            &&& r.latency == e.latency
            &&& r.lag == e.lag
        }),
{
    let until = e.health.status->until;
    let left = crate::health::span(until, now);
    assert(left / SECOND as int <= until / SECOND) by (nonlinear_arith)
        requires
            0 <= left <= until,
            SECOND == 1_000_000_000,
    ;
    assert(left / SECOND as int >= 1) by (nonlinear_arith)
        requires
            left >= SECOND,
            SECOND == 1_000_000_000,
    ;
    assert((left / SECOND as int) * SECOND <= left < (left / SECOND as int) * SECOND + SECOND)
        by (nonlinear_arith)
        requires
            left >= 0,
            SECOND == 1_000_000_000,
    ;
}

/// Every slot that is taken can be given back: acquiring and releasing leaves the slots as they were.
pub proof fn lemma_release_undoes_acquire(e: EndpointView)
    requires
        e.wf(),
        e.in_flight < e.concurrency,
    ensures
        e.acquired().wf(),
        e.acquired().in_flight > 0,
        (e.acquired().in_flight - 1) as usize == e.in_flight,
{
}

/// What a success leaves of an endpoint: it counts as one good outcome, as a probe only where it was one,
/// and touches neither the limits nor the slots in use, the distance from the head or any other count.
pub proof fn lemma_success_is_noted(e: EndpointView, now: u128, latency: u128, probe: bool)
    ensures
        ({
            let after = e.after_success(now, latency, probe);
            &&& after.outcomes.len() > 0 && after.outcomes.last() == (now, false)
            &&& after.outcomes.drop_last() == pruned(e.outcomes, now)
            &&& after.latency == e.with_latency(latency).latency
            &&& after.health == e.health.after_success(now)
            &&& e.stats.probe_successes < u64::MAX ==> after.stats.probe_successes
                == e.stats.probe_successes + (if probe {
                1int
            } else {
                0
            })
            &&& after.stats.failures == e.stats.failures
            &&& after.stats.rate_limited == e.stats.rate_limited
            &&& after.stats.cooling_events == e.stats.cooling_events
            &&& after.stats.outbound_requests == e.stats.outbound_requests
            &&& after.dirty
            &&& after.url == e.url && after.rps == e.rps && after.concurrency == e.concurrency
            &&& after.in_flight == e.in_flight && after.lag == e.lag && after.height == e.height
            &&& after.health.consecutive_faults == 0 && after.health.last_fault is None
        }),
{
}

/// What a fault leaves of an endpoint: one failure more, one refusal for too many requests more where it
/// was one, and one pause more exactly where the endpoint begins to cool by it. Latency, limits and slots
/// stay as they are.
pub proof fn lemma_failure_is_noted(e: EndpointView, now: u128, signal: FailureSignal)
    requires
        e.stats.failures < u64::MAX,
        e.stats.rate_limited < u64::MAX,
        e.stats.cooling_events < u64::MAX,
    ensures
        ({
            let after = e.after_failure(now, signal);
            let begins = !(e.health.status is Cooling) && after.health.status is Cooling;
            &&& after.outcomes.len() > 0 && after.outcomes.last() == (now, true)
            &&& after.outcomes.drop_last() == pruned(e.outcomes, now)
            &&& after.health == e.health.after_failure(now, signal)
            &&& after.stats.failures == e.stats.failures + 1
            &&& after.stats.rate_limited == e.stats.rate_limited + (if signal.kind is RateLimited {
                1int
            } else {
                0
            })
            &&& after.stats.cooling_events == e.stats.cooling_events + (if begins {
                1int
            } else {
                0
            })
            &&& after.stats.probe_successes == e.stats.probe_successes
            &&& after.stats.outbound_requests == e.stats.outbound_requests
            &&& after.dirty
            &&& after.latency == e.latency && after.lag == e.lag && after.height == e.height
            &&& after.url == e.url && after.rps == e.rps && after.concurrency == e.concurrency
            &&& after.in_flight == e.in_flight
            &&& e.health.status is Probation ==> after.health.status is Cooling
            &&& signal.kind is RateLimited || signal.kind is Immediate ==> after.health.status
                is Cooling
            &&& e.health.status is Cooling ==> after.health.status is Cooling
        }),
{
}

/// The first latency is taken as it is, in whole microseconds; each later one moves the smoothed latency
/// a fifth of the way towards itself, rounded down.
pub proof fn lemma_latency_moves_by_a_fifth(e: EndpointView, latency: u128)
    requires
        latency / 1000 <= 0x1000_0000_0000,
        e.latency <= 0x1000_0000_0000,
    ensures
        e.latency == 0 ==> e.with_latency(latency).latency == latency / 1000,
        e.latency > 0 ==> 5 * e.with_latency(latency).latency <= 4 * e.latency + latency / 1000
            < 5 * e.with_latency(latency).latency + 5,
{
}

/// Of the outcomes in a window only those from the front are dropped, each of them older than a minute,
/// and dropping stops at the first that is not.
pub proof fn lemma_old_outcomes_are_dropped(outcomes: Seq<(u128, bool)>, now: u128)
    ensures
        exists|k: int|
            #![trigger outcomes.skip(k)]
            0 <= k <= outcomes.len() && pruned(outcomes, now) == outcomes.skip(k) && (forall|i: int|
                0 <= i < k ==> now - (#[trigger] outcomes[i]).0 > 60_000_000_000) && (k
                < outcomes.len() ==> now - outcomes[k].0 <= 60_000_000_000),
    decreases outcomes.len(),
{
    if outcomes.len() > 0 && now - outcomes[0].0 > 60_000_000_000 {
        let rest = outcomes.skip(1);
        lemma_old_outcomes_are_dropped(rest, now);
        let k = choose|k: int|
            #![trigger rest.skip(k)]
            0 <= k <= rest.len() && pruned(rest, now) == rest.skip(k) && (forall|i: int|
                0 <= i < k ==> now - (#[trigger] rest[i]).0 > 60_000_000_000) && (k < rest.len()
                ==> now - rest[k].0 <= 60_000_000_000);
        assert(outcomes.skip(k + 1) =~= rest.skip(k));
        assert forall|i: int| 0 <= i < k + 1 implies now - (#[trigger] outcomes[i]).0
            > 60_000_000_000 by {
            if i > 0 {
                assert(rest[i - 1] == outcomes[i]);
            }
        }
    } else {
        assert(outcomes.skip(0) =~= outcomes);
    }
}

/// A failure more among the outcomes is one failure more in their count, and a success none.
pub proof fn lemma_failures_are_counted(outcomes: Seq<(u128, bool)>, at: u128, failed: bool)
    ensures
        failures_in(Seq::empty()) == 0,
        failures_in(outcomes.push((at, failed))) == failures_in(outcomes) + (if failed {
            1nat
        } else {
            0
        }),
{
    reveal(Seq::filter);
    assert(outcomes.push((at, failed)).drop_last() =~= outcomes);
}

/// A new endpoint has the limits that were asked for, as far as they are from one to a hundred requests
/// a second and from one to sixty-four at a time, and the nearest bound where they are not. It is on
/// probation, idle, and nothing has been counted of it.
pub proof fn lemma_new_endpoint_is_within_bounds(
    url: Seq<char>,
    rps: u32,
    concurrency: usize,
    now: u64,
)
    ensures
        ({
            let e = EndpointView::fresh(url, rps, concurrency, now);
            &&& e.url == url && e.last_seen == now
            &&& 1 <= rps <= 100 ==> e.rps == rps
            &&& rps < 1 ==> e.rps == 1
            &&& rps > 100 ==> e.rps == 100
            &&& e.quota == e.rps
            &&& 1 <= concurrency <= 64 ==> e.concurrency == concurrency
            &&& concurrency < 1 ==> e.concurrency == 1
            &&& concurrency > 64 ==> e.concurrency == 64
            &&& e.in_flight == 0 && e.latency == 0 && e.lag == 0 && e.height is None
            &&& e.health.status == (HealthStatus::Probation { passes: 0 }) && e.health.strikes == 0
            &&& e.outcomes.len() == 0 && e.stats.failures == 0 && e.stats.outbound_requests == 0
            &&& e.stats.rate_limited == 0 && e.stats.cooling_events == 0
            &&& e.stats.probe_successes == 0
            &&& !e.probing && e.undrawn
        }),
{
}

/// A lease takes one slot and counts one request, and changes nothing that is known of the endpoint.
pub proof fn lemma_lease_takes_one_slot(e: EndpointView)
    requires
        e.wf(),
        e.in_flight < e.concurrency,
        e.stats.outbound_requests < u64::MAX,
    ensures
        e.leased().in_flight == e.in_flight + 1,
        e.leased().stats.outbound_requests == e.stats.outbound_requests + 1,
        e.leased().stats.failures == e.stats.failures,
        !e.leased().undrawn,
        e.leased().health == e.health,
        e.leased().outcomes == e.outcomes,
        e.leased().url == e.url,
        e.leased().rps == e.rps,
        e.leased().concurrency == e.concurrency,
        e.leased().latency == e.latency,
        e.leased().lag == e.lag,
        e.acquired().in_flight == e.in_flight + 1,
        e.acquired().undrawn == e.undrawn,
{
}

/// A stored pause goes on until the stored second, counted from now on the other clock; strikes, latency
/// and lag are those that were stored.
pub proof fn lemma_stored_pause_goes_on(
    e: EndpointView,
    snapshot: HealthSnapshot,
    now: u128,
    now_unix: u64,
)
    requires
        now <= MAX_INSTANT,
    ensures
        ({
            let r = e.restored(snapshot, now, now_unix);
            &&& snapshot.state@ == "cooling"@ && (snapshot.cooling_until_unix matches Some(t) && t
                > now_unix) ==> r.health.status == (HealthStatus::Cooling {
                until: (now + (snapshot.cooling_until_unix->0 - now_unix) * 1_000_000_000) as u128,
            })
            &&& snapshot.state@ != "cooling"@ ==> r.health.status == (HealthStatus::Probation {
                passes: 0,
            })
            &&& snapshot.cooling_until_unix is None ==> r.health.status
                == (HealthStatus::Probation { passes: 0 })
            &&& (snapshot.cooling_until_unix matches Some(t) && t <= now_unix) ==> r.health.status
                == (HealthStatus::Probation { passes: 0 })
            &&& r.health.strikes == snapshot.strikes
            &&& r.latency == snapshot.latency_ewma_us
            &&& r.lag == snapshot.lag
            &&& r.url == e.url && r.rps == e.rps && r.concurrency == e.concurrency
            &&& r.in_flight == e.in_flight && r.stats == e.stats
        }),
{
}

/// A height counts as long as it is no older than asked.
pub proof fn lemma_height_grows_stale(e: EndpointView, now: u128, freshness: u128)
    ensures
        e.height is None ==> e.recent_height(now, freshness) is None,
        e.height matches Some((h, t)) ==> {
            &&& now - t <= freshness ==> e.recent_height(now, freshness) == Some(h)
            &&& now - t > freshness ==> e.recent_height(now, freshness) is None
        },
{
}

/// A pause that is shown or stored ends after the whole seconds that it still lasts, now where it is
/// over.
pub proof fn lemma_pause_end_in_wall_time(until: u128, now: u128, now_unix: u64)
    requires
        now_unix + until / 1_000_000_000 <= u64::MAX,
    ensures
        until <= now ==> pause_end(until, now, now_unix) == now_unix,
        until > now ==> 1_000_000_000 * (pause_end(until, now, now_unix) - now_unix) <= until - now
            < 1_000_000_000 * (pause_end(until, now, now_unix) - now_unix + 1),
{
    if until > now {
        let left: int = until - now;
        assert(left / 1_000_000_000 <= until / 1_000_000_000) by (nonlinear_arith)
            requires
                0 <= left <= until,
        ;
        assert(1_000_000_000 * (left / 1_000_000_000) <= left < 1_000_000_000 * (left
            / 1_000_000_000) + 1_000_000_000) by (nonlinear_arith)
            requires
                left >= 0,
        ;
    }
}

} // verus!
