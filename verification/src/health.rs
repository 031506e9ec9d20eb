//! Health of an upstream endpoint: cooling after faults, probation, and the decay of strikes.
//! Points in time and time spans are nanoseconds on a monotonic clock.
use vstd::prelude::*;

verus! {

/// One second.
pub const SECOND: u128 = 1_000_000_000;

/// Faults further apart than this do not add up.
pub const ERROR_WINDOW: u128 = 60_000_000_000;

/// Seconds of steady health that take one strike back.
pub const STRIKE_DECAY_SECONDS: u128 = 900;

/// Ordinary faults in a row that send an active endpoint into cooling.
pub const FAULTS_BEFORE_COOLING: u8 = 3;

/// Successes that lead from probation to service.
pub const PROBATION_PASSES_REQUIRED: u8 = 2;

/// The latest point in time that the clock is taken to show.
pub const MAX_INSTANT: u128 = 100_000_000_000_000_000_000_000_000_000_000_000_000;

/// The longest time span that is ever waited.
pub const MAX_DELAY: u128 = 18_446_744_073_709_551_615_999_999_999;

/// What went wrong with an upstream answer.
#[derive(Clone, Copy, Debug, PartialEq, Eq, Structural)]
pub enum FaultKind {
    /// The upstream refused because of too many requests.
    RateLimited,
    /// A fault after which the endpoint must not be used at once again.
    Immediate,
    /// The upstream failed to answer properly.
    ServerError,
    /// The upstream is away from the head of the chain.
    Lagging,
}

impl FaultKind {
    pub open spec fn is_immediate(self) -> bool {
        self is RateLimited || self is Immediate
    }

    pub fn requires_immediate_cooling(&self) -> (r: bool)
        ensures
            r == self.is_immediate(),
    {
        match self {
            FaultKind::RateLimited | FaultKind::Immediate => true,
            FaultKind::ServerError | FaultKind::Lagging => false,
        }
    }
}

/// A fault together with the pause that the upstream asked for.
#[derive(Clone, Copy, Debug, PartialEq, Eq, Structural)]
pub struct FailureSignal {
    pub kind: FaultKind,
    pub retry_after: Option<u128>,
}

impl FailureSignal {
    pub open spec fn wf(self) -> bool {
        self.retry_after matches Some(d) ==> d <= MAX_DELAY
    }

    pub fn new(kind: FaultKind) -> (s: Self)
        ensures
            s == (FailureSignal { kind, retry_after: None }),
            s.wf(),
    {
        FailureSignal { kind, retry_after: None }
    }
}

#[derive(Clone, Copy, Debug, PartialEq, Eq, Structural)]
pub enum HealthStatus {
    Active,
    Cooling { until: u128 },
    Probation { passes: u8 },
}

#[derive(Clone, Copy, Debug, PartialEq, Eq, Structural)]
pub struct HealthState {
    pub status: HealthStatus,
    pub strikes: u32,
    pub healthy_since: Option<u128>,
    pub consecutive_faults: u8,
    pub last_fault: Option<u128>,
}

/// Time from `earlier` to `later`; zero where `later` is not later.
pub open spec fn span(later: u128, earlier: u128) -> int {
    if later > earlier {
        later - earlier
    } else {
        0
    }
}

/// The cooling period for a number of accumulated strikes.
pub open spec fn cooldown(strikes: int) -> int {
    SECOND * (if strikes <= 1 {
        30int
    } else if strikes == 2 {
        60
    } else if strikes == 3 {
        300
    } else if strikes == 4 {
        900
    } else if strikes == 5 {
        1800
    } else {
        3600
    })
}

/// The cooling period for a number of accumulated strikes.
pub fn cooldown_for_strikes(strikes: u32) -> (delay: u128)
    ensures
        delay == cooldown(strikes as int),
{
    let seconds: u128 = match strikes {
        0 | 1 => 30,
        2 => 60,
        3 => 300,
        4 => 900,
        5 => 1_800,
        _ => 3_600,
    };
    SECOND * seconds
}

/// More strikes never mean a shorter pause, and no pause by policy lasts longer than an hour.
pub proof fn lemma_cooldown_grows(fewer: int, more: int)
    requires
        fewer <= more,
    ensures
        30 * SECOND <= cooldown(fewer) <= cooldown(more) <= 3600 * SECOND,
{
}

pub open spec fn saturated_u32(n: int) -> u32 {
    if n > u32::MAX {
        u32::MAX
    } else {
        n as u32
    }
}

pub open spec fn saturated_u8(n: int) -> u8 {
    if n > u8::MAX {
        u8::MAX
    } else {
        n as u8
    }
}

impl HealthState {
    /// The health of an endpoint of which nothing is known yet.
    pub open spec fn fresh() -> HealthState {
        HealthState {
            status: HealthStatus::Probation { passes: 0 },
            strikes: 0,
            healthy_since: None,
            consecutive_faults: 0,
            last_fault: None,
        }
    }

    pub fn probation() -> (h: Self)
        ensures
            h == HealthState::fresh(),
    {
        HealthState {
            status: HealthStatus::Probation { passes: 0 },
            strikes: 0,
            healthy_since: None,
            consecutive_faults: 0,
            last_fault: None,
        }
    }

    /// Whole decay periods that have gone by in steady health.
    pub open spec fn decay_steps(self, now: u128) -> int {
        if self.status is Active && self.healthy_since is Some {
            (span(now, self.healthy_since->0) / SECOND as int) / STRIKE_DECAY_SECONDS as int
        } else {
            0
        }
    }

    /// The health once the decay of strikes up to `now` is accounted for: each whole period takes
    /// one strike back, and counting starts anew.
    pub open spec fn decayed(self, now: u128) -> HealthState {
        let steps = self.decay_steps(now);
        if steps == 0 {
            self
        } else {
            HealthState {
                strikes: (if steps >= self.strikes {
                    0
                } else {
                    self.strikes - steps
                }) as u32,
                healthy_since: Some(now),
                ..self
            }
        }
    }

    pub fn decay_strikes(&mut self, now: u128)
        ensures
            *final(self) == old(self).decayed(now),
    {
        if !matches!(self.status, HealthStatus::Active) {
            return ;
        }
        let healthy_since: u128 = match self.healthy_since {
            Some(t) => t,
            None => {
                return ;
            },
        };
        let elapsed: u128 = if now > healthy_since {
            now - healthy_since
        } else {
            0
        };
        let steps: u128 = (elapsed / SECOND) / STRIKE_DECAY_SECONDS;
        if steps == 0 {
            return ;
        }
        let strikes: u128 = self.strikes as u128;
        self.strikes = if steps >= strikes {
            0
        } else {
            (strikes - steps) as u32
        };
        self.healthy_since = Some(now);
    }

    /// The health after a success at `now`: faults are forgotten, and an endpoint on probation comes
    /// one pass closer to service.
    pub open spec fn after_success(self, now: u128) -> HealthState {
        let h = self.decayed(now);
        let cleared = HealthState { consecutive_faults: 0, last_fault: None, ..h };
        match h.status {
            HealthStatus::Probation { passes } => {
                let passed = saturated_u8(passes + 1);
                if passed >= PROBATION_PASSES_REQUIRED {
                    HealthState {
                        status: HealthStatus::Active,
                        healthy_since: Some(now),
                        ..cleared
                    }
                } else {
                    HealthState { status: HealthStatus::Probation { passes: passed }, ..cleared }
                }
            },
            _ => cleared,
        }
    }

    pub fn record_success(&mut self, now: u128)
        ensures
            *final(self) == old(self).after_success(now),
    {
        self.decay_strikes(now);
        self.consecutive_faults = 0;
        self.last_fault = None;
        if let HealthStatus::Probation { passes } = self.status {
            let passed: u8 = passes.saturating_add(1);
            if passed >= PROBATION_PASSES_REQUIRED {
                self.healthy_since = Some(now);
                self.status = HealthStatus::Active;
            } else {
                self.status = HealthStatus::Probation { passes: passed };
            }
        }
    }

    /// Faults in a row, the one at `now` counted; a fault outside the error window starts over.
    pub open spec fn faults_with(self, now: u128) -> u8 {
        let kept: int = if self.last_fault is None || span(now, self.last_fault->0) > ERROR_WINDOW {
            0
        } else {
            self.consecutive_faults as int
        };
        saturated_u8(kept + 1)
    }

    /// Whether a fault at `now` sends an endpoint that is not cooling into cooling.
    pub open spec fn must_cool(self, now: u128, kind: FaultKind) -> bool {
        kind.is_immediate() || self.status is Probation || self.faults_with(now)
            >= FAULTS_BEFORE_COOLING
    }

    /// The pause that a fault leads to, given the strikes with this one counted.
    pub open spec fn pause(strikes: u32, signal: FailureSignal) -> int {
        match signal.retry_after {
            Some(d) if d > cooldown(strikes as int) => d as int,
            _ => cooldown(strikes as int),
        }
    }

    /// The health after a fault at `now`. While the endpoint cools, only a longer pause asked for by
    /// the upstream changes anything. Otherwise the fault is counted, and where it has to cool, it
    /// takes a strike and cools for the longer of the policy's pause and the one asked for.
    pub open spec fn after_failure(self, now: u128, signal: FailureSignal) -> HealthState {
        let h = self.decayed(now);
        match h.status {
            HealthStatus::Cooling { until } => match signal.retry_after {
                Some(d) if now + d > until => HealthState {
                    status: HealthStatus::Cooling { until: (now + d) as u128 },
                    ..h
                },
                _ => h,
            },
            _ => if h.must_cool(now, signal.kind) {
                let strikes = saturated_u32(h.strikes + 1);
                HealthState {
                    status: HealthStatus::Cooling {
                        until: (now + HealthState::pause(strikes, signal)) as u128,
                    },
                    strikes,
                    healthy_since: None,
                    consecutive_faults: 0,
                    last_fault: None,
                }
            } else {
                HealthState {
                    healthy_since: if h.status is Active {
                        Some(now)
                    } else {
                        h.healthy_since
                    },
                    consecutive_faults: h.faults_with(now),
                    last_fault: Some(now),
                    ..h
                }
            },
        }
    }

    /// Accounts for a fault; says whether the endpoint went into cooling by it.
    pub fn record_failure(&mut self, now: u128, signal: FailureSignal) -> (cooled: bool)
        requires
            now <= MAX_INSTANT,
            signal.wf(),
        ensures
            *final(self) == old(self).after_failure(now, signal),
            cooled == (!(old(self).status is Cooling) && final(self).status is Cooling),
    {
        self.decay_strikes(now);
        if let HealthStatus::Cooling { until } = self.status {
            if let Some(d) = signal.retry_after {
                if now + d > until {
                    self.status = HealthStatus::Cooling { until: now + d };
                }
            }
            return false;
        }
        let stale: bool = match self.last_fault {
            Some(t) => now > t && now - t > ERROR_WINDOW,
            None => true,
        };
        if stale {
            self.consecutive_faults = 0;
        }
        self.last_fault = Some(now);
        self.consecutive_faults = self.consecutive_faults.saturating_add(1);
        if matches!(self.status, HealthStatus::Active) {
            self.healthy_since = Some(now);
        }
        let should_cool: bool = signal.kind.requires_immediate_cooling() || matches!(
            self.status,
            HealthStatus::Probation { .. }
        ) || self.consecutive_faults >= FAULTS_BEFORE_COOLING;
        if !should_cool {
            return false;
        }
        self.strikes = self.strikes.saturating_add(1);
        self.healthy_since = None;
        self.consecutive_faults = 0;
        self.last_fault = None;
        let policy: u128 = cooldown_for_strikes(self.strikes);
        proof {
            lemma_cooldown_grows(self.strikes as int, self.strikes as int);
        }
        let pause: u128 = match signal.retry_after {
            Some(d) => if d > policy {
                d
            } else {
                policy
            },
            None => policy,
        };
        self.status = HealthStatus::Cooling { until: now + pause };
        true
    }

    /// Whether a probe may start at `now`.
    pub open spec fn may_probe(self, now: u128) -> bool {
        self.status matches HealthStatus::Cooling { until } ==> now >= until
    }

    /// The health once a probe has started at `now`: an endpoint whose pause is over is on
    /// probation from then on.
    pub open spec fn probed(self, now: u128) -> HealthState {
        let h = self.decayed(now);
        if h.status is Cooling && h.may_probe(now) {
            HealthState {
                status: HealthStatus::Probation { passes: 0 },
                consecutive_faults: 0,
                last_fault: None,
                ..h
            }
        } else {
            h
        }
    }

    pub fn start_probe(&mut self, now: u128) -> (started: bool)
        ensures
            *final(self) == old(self).probed(now),
            started == old(self).may_probe(now),
    {
        self.decay_strikes(now);
        match self.status {
            HealthStatus::Cooling { until } => {
                if now < until {
                    false
                } else {
                    self.status = HealthStatus::Probation { passes: 0 };
                    self.consecutive_faults = 0;
                    self.last_fault = None;
                    true
                }
            },
            HealthStatus::Active | HealthStatus::Probation { .. } => true,
        }
    }
}

/// An endpoint on probation that fails goes straight back into cooling, whatever the fault.
pub proof fn lemma_probation_failure_cools(h: HealthState, now: u128, signal: FailureSignal)
    requires
        h.status is Probation,
    ensures
        h.after_failure(now, signal).status is Cooling,
{
}

/// From probation it takes two successes to come into service; one is not enough.
pub proof fn lemma_probation_needs_two_passes(h: HealthState, first: u128, second: u128)
    requires
        h.status == (HealthStatus::Probation { passes: 0 }),
    ensures
        h.after_success(first).status == (HealthStatus::Probation { passes: 1 }),
        h.after_success(first).after_success(second).status is Active,
{
}

/// A success never ends a pause: an endpoint stays in cooling until a probe finds the pause over.
pub proof fn lemma_success_keeps_cooling(h: HealthState, now: u128)
    requires
        h.status is Cooling,
    ensures
        h.after_success(now).status == h.status,
{
}

/// A fault never shortens a pause that is running, and does not add a strike to it.
pub proof fn lemma_fault_never_shortens_cooling(h: HealthState, now: u128, signal: FailureSignal)
    requires
        h.status is Cooling,
        now <= MAX_INSTANT,
        signal.wf(),
    ensures
        h.after_failure(now, signal).status is Cooling,
        h.after_failure(now, signal).status->until >= h.status->until,
        h.after_failure(now, signal).strikes == h.strikes,
{
}

/// An endpoint in service stands two ordinary faults in a row; the third within the error window
/// sends it into cooling.
pub proof fn lemma_third_ordinary_fault_cools(
    h: HealthState,
    t1: u128,
    t2: u128,
    t3: u128,
    signal: FailureSignal,
)
    requires
        h.status is Active,
        h.healthy_since == Some(t1),
        h.last_fault is None,
        h.consecutive_faults == 0,
        t1 <= t2 <= t3,
        t3 - t1 <= ERROR_WINDOW,
        !signal.kind.is_immediate(),
    ensures
        h.after_failure(t1, signal).status is Active,
        h.after_failure(t1, signal).after_failure(t2, signal).status is Active,
        h.after_failure(t1, signal).after_failure(t2, signal).after_failure(
            t3,
            signal,
        ).status is Cooling,
{
    assert(h.decay_steps(t1) == 0);
    let h1 = h.after_failure(t1, signal);
    assert(h1.decay_steps(t2) == 0);
    let h2 = h1.after_failure(t2, signal);
    assert(h2.decay_steps(t3) == 0);
}

/// One fault adds at most one strike, and successes add none.
pub proof fn lemma_strikes_grow_by_one(h: HealthState, now: u128, signal: FailureSignal)
    ensures
        h.after_failure(now, signal).strikes <= h.strikes + 1,
        h.after_success(now).strikes <= h.strikes,
{
}

/// A fault that cools leads to a pause no shorter than the policy's for the strikes it leaves, and no
/// shorter than the pause that the upstream asked for.
pub proof fn lemma_cooling_lasts(h: HealthState, now: u128, signal: FailureSignal)
    requires
        now <= MAX_INSTANT,
        signal.wf(),
        !(h.status is Cooling),
        h.decayed(now).must_cool(now, signal.kind),
    ensures
        ({
            let after = h.after_failure(now, signal);
            &&& after.status is Cooling
            &&& after.strikes == saturated_u32(h.decayed(now).strikes + 1)
            &&& after.status->until - now >= cooldown(after.strikes as int)
            &&& signal.retry_after matches Some(d) ==> after.status->until - now >= d
            &&& !after.may_probe(now)
        }),
{
    lemma_cooldown_grows(0, saturated_u32(h.decayed(now).strikes + 1) as int);
}

/// A success wipes out the faults before it, whatever they were, and takes no strike back by itself.
pub proof fn lemma_success_forgets_faults(h: HealthState, now: u128)
    ensures
        h.after_success(now).consecutive_faults == 0,
        h.after_success(now).last_fault is None,
        h.after_success(now).strikes == h.decayed(now).strikes,
        h.status is Active ==> h.after_success(now).status is Active,
        h.status is Active ==> h.after_success(now).healthy_since == h.decayed(now).healthy_since,
{
}

/// After a success an endpoint in service stands two ordinary faults again, whatever faults were counted
/// before it and whenever they happen.
pub proof fn lemma_two_faults_after_success_are_stood(
    h: HealthState,
    t: u128,
    t1: u128,
    first: FailureSignal,
    t2: u128,
    second: FailureSignal,
)
    requires
        h.status is Active,
        first.kind is ServerError || first.kind is Lagging,
        second.kind is ServerError || second.kind is Lagging,
    ensures
        ({
            let one = h.after_success(t).after_failure(t1, first);
            let two = one.after_failure(t2, second);
            &&& one.status is Active
            &&& two.status is Active
            &&& two.strikes <= h.strikes
        }),
{
}

/// After a success, the third of three ordinary faults in a row cools an endpoint in service where each
/// came within a minute of the one before, and does not where one came later than that.
pub proof fn lemma_third_fault_in_a_row_cools(
    h: HealthState,
    t: u128,
    t1: u128,
    first: FailureSignal,
    t2: u128,
    second: FailureSignal,
    t3: u128,
    third: FailureSignal,
)
    requires
        h.status is Active,
        t1 <= t2 <= t3,
        first.kind is ServerError || first.kind is Lagging,
        second.kind is ServerError || second.kind is Lagging,
        third.kind is ServerError || third.kind is Lagging,
    ensures
        ({
            let all = h.after_success(t).after_failure(t1, first).after_failure(
                t2,
                second,
            ).after_failure(t3, third);
            &&& t2 - t1 <= 60_000_000_000 && t3 - t2 <= 60_000_000_000 ==> all.status is Cooling
            &&& t2 - t1 > 60_000_000_000 || t3 - t2 > 60_000_000_000 ==> all.status is Active
        }),
{
}

/// Too many requests, or a fault that forbids further use, cools an endpoint at once, in service as on
/// probation.
pub proof fn lemma_grave_fault_cools_at_once(h: HealthState, now: u128, signal: FailureSignal)
    requires
        !(h.status is Cooling),
        signal.kind is RateLimited || signal.kind is Immediate,
    ensures
        h.after_failure(now, signal).status is Cooling,
{
}

/// How long a fault that cools lasts: half a minute after the first strike, then one minute, five, a
/// quarter of an hour, half an hour, and from the sixth on an hour; longer only where the upstream asks
/// for a longer pause, and then exactly as long as it asks.
pub proof fn lemma_pause_by_strikes(h: HealthState, now: u128, signal: FailureSignal)
    requires
        now <= MAX_INSTANT,
        signal.wf(),
        !(h.status is Cooling),
        h.after_failure(now, signal).status is Cooling,
    ensures
        ({
            let before = h.decayed(now).strikes;
            let after = h.after_failure(now, signal);
            let policy: int = if before == 0 {
                30_000_000_000
            } else if before == 1 {
                60_000_000_000
            } else if before == 2 {
                300_000_000_000
            } else if before == 3 {
                900_000_000_000
            } else if before == 4 {
                1_800_000_000_000
            } else {
                3_600_000_000_000
            };
            &&& before < u32::MAX ==> after.strikes == before + 1
            &&& before == u32::MAX ==> after.strikes == before
            &&& after.status->until == now + (match signal.retry_after {
                Some(asked) if asked > policy => asked as int,
                _ => policy,
            })
            &&& after.healthy_since is None
            &&& after.consecutive_faults == 0
            &&& after.last_fault is None
        }),
{
}

/// While an endpoint cools, a fault leaves everything as it is, except that the pause reaches to the end
/// of the one that the upstream asks for, where that is later.
pub proof fn lemma_fault_while_cooling(h: HealthState, now: u128, signal: FailureSignal)
    requires
        now <= MAX_INSTANT,
        signal.wf(),
        h.status is Cooling,
    ensures
        ({
            let after = h.after_failure(now, signal);
            let asked: int = match signal.retry_after {
                Some(d) => now + d,
                None => 0,
            };
            &&& after.status is Cooling
            &&& after.status->until == (if asked > h.status->until {
                asked
            } else {
                h.status->until as int
            })
            &&& after.strikes == h.strikes
            &&& after.healthy_since == h.healthy_since
            &&& after.consecutive_faults == h.consecutive_faults
            &&& after.last_fault == h.last_fault
        }),
{
}

/// A fault that an endpoint in service stands is counted, and steady health is counted from it on.
pub proof fn lemma_stood_fault_is_counted(h: HealthState, now: u128, signal: FailureSignal)
    requires
        h.after_failure(now, signal).status is Active,
    ensures
        ({
            let after = h.after_failure(now, signal);
            &&& h.status is Active
            &&& after.last_fault == Some(now)
            &&& after.healthy_since == Some(now)
            &&& after.strikes == h.decayed(now).strikes
            &&& 1 <= after.consecutive_faults <= 2
            &&& after.consecutive_faults == 1 || after.consecutive_faults == h.consecutive_faults + 1
        }),
{
}

/// Strikes fade only in service: each whole quarter of an hour of steady health takes one back, down to
/// none, and the next is counted from then on. Short of a quarter of an hour nothing changes.
pub proof fn lemma_strikes_fade_by_quarters(h: HealthState, now: u128, quarters: nat)
    ensures
        !(h.status is Active) || h.healthy_since is None ==> h.decayed(now) == h,
        h.status is Active && (h.healthy_since matches Some(t) && now - t < 900_000_000_000)
            ==> h.decayed(now) == h,
        h.status is Active && quarters > 0 && (h.healthy_since matches Some(t) && 900_000_000_000
            * quarters <= now - t < 900_000_000_000 * (quarters + 1)) ==> {
            let after = h.decayed(now);
            &&& after.strikes == (if quarters >= h.strikes {
                0
            } else {
                h.strikes - quarters
            })
            &&& after.healthy_since == Some(now)
            &&& after.status == h.status
            &&& after.consecutive_faults == h.consecutive_faults
            &&& after.last_fault == h.last_fault
        },
{
    if let Some(t) = h.healthy_since {
        if now > t {
            let e: int = now - t;
            let seconds: int = e / 1_000_000_000;
            let steps: int = seconds / 900;
            assert(steps == e / 900_000_000_000) by (nonlinear_arith)
                requires
                    seconds == e / 1_000_000_000,
                    steps == seconds / 900,
                    e >= 0,
            ;
            if e < 900_000_000_000 {
                assert(steps == 0);
            }
            if 900_000_000_000 * quarters <= e < 900_000_000_000 * (quarters + 1) {
                assert(e / 900_000_000_000 == quarters) by (nonlinear_arith)
                    requires
                        900_000_000_000 * quarters <= e < 900_000_000_000 * (quarters + 1),
                ;
            }
        }
    }
}

/// On probation the second success in all brings an endpoint into service, with steady health counted
/// from then on and its strikes as they were; the first does not.
pub proof fn lemma_probation_ends_with_second_pass(h: HealthState, now: u128)
    requires
        h.status is Probation,
    ensures
        ({
            let after = h.after_success(now);
            &&& h.status->passes == 0 ==> after.status == (HealthStatus::Probation { passes: 1 })
            &&& h.status->passes >= 1 ==> after.status is Active && after.healthy_since == Some(now)
            &&& after.strikes == h.strikes
        }),
{
}

/// A pause that is not over keeps an endpoint from being probed and changes nothing; once it is over a
/// probe puts the endpoint on probation from the start, with its strikes kept. Other endpoints may always
/// be probed and stay what they are.
pub proof fn lemma_probe_waits_for_the_pause(h: HealthState, now: u128)
    ensures
        h.status matches HealthStatus::Cooling { until } ==> {
            &&& h.may_probe(now) <==> until <= now
            &&& now < until ==> h.probed(now) == h
            &&& until <= now ==> h.probed(now).status == (HealthStatus::Probation { passes: 0 })
            &&& h.probed(now).strikes == h.strikes
        },
        !(h.status is Cooling) ==> h.may_probe(now) && h.probed(now).status == h.status,
        h.probed(now).strikes == h.decayed(now).strikes,
{
}

/// An endpoint of which nothing is known yet is on probation, without strikes or faults.
pub proof fn lemma_nothing_is_known_at_first()
    ensures
        HealthState::fresh().status == (HealthStatus::Probation { passes: 0 }),
        HealthState::fresh().strikes == 0,
        HealthState::fresh().healthy_since is None,
        HealthState::fresh().consecutive_faults == 0,
        HealthState::fresh().last_fault is None,
{
}

/// Rate limits and grave faults cool at once; server errors and lags are ordinary faults.
pub proof fn lemma_which_faults_are_grave(kind: FaultKind)
    ensures
        kind is RateLimited || kind is Immediate ==> kind.is_immediate(),
        kind is ServerError || kind is Lagging ==> !kind.is_immediate(),
{
}

} // verus!
