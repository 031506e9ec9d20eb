use rpcrouter::endpoint::{Endpoint, EndpointState, ScoreParts};
use rpcrouter::health::{
    FailureSignal, FaultKind, ERROR_WINDOW, SECOND, STRIKE_DECAY_SECONDS, cooldown_for_strikes,
};

const START: u128 = 1_000 * SECOND;
const MILLISECOND: u128 = SECOND / 1_000;

fn activate(endpoint: &mut Endpoint, now: u128, latency_ms: u128) {
    endpoint.record_success(now, latency_ms * MILLISECOND, true);
    endpoint.record_success(now, latency_ms * MILLISECOND, true);
    assert_eq!(endpoint.state(now), EndpointState::Active);
}

#[test]
fn exponential_cooldown_and_retry_after_are_enforced() {
    let mut endpoint = Endpoint::new("http://limited".to_owned(), 15, 8, 0);
    let mut now = START;
    activate(&mut endpoint, now, 10);
    for (strike, expected) in [30, 60, 300, 900, 1_800, 3_600].into_iter().enumerate() {
        let retry_after = (strike == 0).then_some(45 * SECOND);
        endpoint.record_failure(
            now,
            FailureSignal {
                kind: FaultKind::RateLimited,
                retry_after,
            },
        );
        let expected = if strike == 0 { 45 } else { expected };
        let EndpointState::Cooling { until, strikes } = endpoint.state(now) else {
            panic!("endpoint must be cooling");
        };
        assert_eq!(strikes, strike as u32 + 1);
        assert_eq!(until - now, expected * SECOND);
        now = until;
        assert!(endpoint.begin_probe(now));
        endpoint.record_success(now, 10 * MILLISECOND, true);
        endpoint.record_success(now, 10 * MILLISECOND, true);
        endpoint.end_probe();
    }
}

#[test]
fn strikes_decay_after_quiet_period() {
    let mut endpoint = Endpoint::new("http://limited".to_owned(), 15, 8, 0);
    let start = START;
    activate(&mut endpoint, start, 10);
    endpoint.record_failure(start, FailureSignal::new(FaultKind::RateLimited));
    let recovered = start + 30 * SECOND;
    assert!(endpoint.begin_probe(recovered));
    endpoint.record_success(recovered, 10 * MILLISECOND, true);
    endpoint.record_success(recovered, 10 * MILLISECOND, true);
    endpoint.end_probe();
    let later = recovered + (STRIKE_DECAY_SECONDS + 1) * SECOND;
    endpoint.record_failure(later, FailureSignal::new(FaultKind::RateLimited));
    let EndpointState::Cooling { until, strikes } = endpoint.state(later) else {
        panic!("endpoint must be cooling");
    };
    assert_eq!(strikes, 1);
    assert_eq!(until - later, 30 * SECOND);
}

#[test]
fn ordinary_faults_cool_after_threshold() {
    let mut endpoint = Endpoint::new("http://flaky".to_owned(), 15, 8, 0);
    let now = START;
    activate(&mut endpoint, now, 10);
    endpoint.record_failure(now, FailureSignal::new(FaultKind::ServerError));
    endpoint.record_failure(now, FailureSignal::new(FaultKind::ServerError));
    assert_eq!(endpoint.state(now), EndpointState::Active);
    endpoint.record_failure(now, FailureSignal::new(FaultKind::ServerError));
    assert!(matches!(endpoint.state(now), EndpointState::Cooling { .. }));
}

#[test]
fn ordinary_fault_threshold_resets_outside_error_window() {
    let mut endpoint = Endpoint::new("http://flaky".to_owned(), 15, 8, 0);
    let start = START;
    activate(&mut endpoint, start, 10);
    endpoint.record_failure(start, FailureSignal::new(FaultKind::ServerError));
    endpoint.record_failure(start, FailureSignal::new(FaultKind::ServerError));
    let later = start + ERROR_WINDOW + SECOND;
    endpoint.record_failure(later, FailureSignal::new(FaultKind::ServerError));
    assert_eq!(endpoint.state(later), EndpointState::Active);
    endpoint.record_failure(later, FailureSignal::new(FaultKind::ServerError));
    endpoint.record_failure(later, FailureSignal::new(FaultKind::ServerError));
    assert!(matches!(endpoint.state(later), EndpointState::Cooling { .. }));
}

#[test]
fn pauses_grow_with_strikes() {
    let seconds: Vec<u128> = (0..8).map(|n| cooldown_for_strikes(n) / SECOND).collect();
    assert_eq!(seconds, [30, 30, 60, 300, 900, 1_800, 3_600, 3_600]);
}

#[test]
fn slots_are_handed_out_and_given_back() {
    let mut endpoint = Endpoint::new("http://a".to_owned(), 100, 2, 0);
    let first = endpoint.grant(true).expect("first slot");
    let second = endpoint.grant(true).expect("second slot");
    assert!(endpoint.grant(true).is_none());
    endpoint.release(first);
    assert!(endpoint.grant(false).is_none());
    let third = endpoint.grant(true).expect("slot was given back");
    assert_eq!(third.endpoint(), "http://a");
    endpoint.release(second);
    endpoint.release(third);
    assert_eq!(endpoint.stats().outbound_requests, 3);
}

#[test]
fn tokens_of_the_bucket_run_out() {
    let mut endpoint = Endpoint::new("http://a".to_owned(), 1, 8, 0);
    activate(&mut endpoint, START, 10);
    let lease = endpoint.try_acquire().expect("first request is allowed");
    endpoint.release(lease);
    assert!(endpoint.try_acquire().is_none(), "rate token was consumed");
}

#[test]
fn limits_are_brought_within_their_bounds() {
    let low = Endpoint::new("http://a".to_owned(), 0, 0, 5);
    assert_eq!((low.rps(), low.concurrency(), low.last_seen()), (1, 1, 5));
    let high = Endpoint::new("http://a".to_owned(), 1_000, 1_000, 5);
    assert_eq!((high.rps(), high.concurrency()), (100, 64));
}

#[test]
fn latency_is_smoothed() {
    let mut endpoint = Endpoint::new("http://a".to_owned(), 15, 8, 0);
    endpoint.record_success(START, 100 * MILLISECOND, false);
    assert_eq!(endpoint.latency_ewma_micros(), 100_000);
    endpoint.record_success(START, 200 * MILLISECOND, false);
    assert_eq!(endpoint.latency_ewma_micros(), 120_000);
}

#[test]
fn the_parts_of_the_score_are_counted() {
    let mut endpoint = Endpoint::new("http://a".to_owned(), 15, 8, 0);
    activate(&mut endpoint, START, 10);
    endpoint.record_failure(START, FailureSignal::new(FaultKind::ServerError));
    endpoint.set_lag(3);
    let lease = endpoint.grant(true).unwrap();
    assert_eq!(
        endpoint.score_parts(START),
        ScoreParts {
            latency_micros: 10_000,
            failures: 1,
            outcomes: 3,
            lag: 3,
            used_slots: 1,
            concurrency: 8,
        }
    );
    assert_eq!(endpoint.score_parts(START + ERROR_WINDOW + SECOND).outcomes, 0);
    endpoint.release(lease);
}

#[test]
fn stored_pauses_go_on_and_active_endpoints_start_over() {
    let mut endpoint = Endpoint::new("http://a".to_owned(), 15, 8, 0);
    activate(&mut endpoint, START, 10);
    endpoint.record_failure(START, FailureSignal::new(FaultKind::RateLimited));
    let stored = endpoint.health_snapshot(1, START, 500);
    assert_eq!(stored.state, "cooling");
    assert_eq!(stored.cooling_until_unix, Some(530));
    assert_eq!(stored.strikes, 1);

    let mut restarted = Endpoint::new("http://a".to_owned(), 15, 8, 0);
    restarted.restore_health(&stored, 10 * SECOND, 510);
    assert_eq!(
        restarted.state(10 * SECOND),
        EndpointState::Cooling { until: 30 * SECOND, strikes: 1 }
    );
    assert!(!restarted.is_dirty());

    let mut late = Endpoint::new("http://a".to_owned(), 15, 8, 0);
    late.restore_health(&stored, 10 * SECOND, 530);
    assert_eq!(late.state(10 * SECOND), EndpointState::Probation { passes: 0 });
}

#[test]
fn health_is_changed_by_hand() {
    let mut endpoint = Endpoint::new("http://a".to_owned(), 15, 8, 0);
    activate(&mut endpoint, START, 10);
    endpoint.cool_for(START, 90 * SECOND);
    assert_eq!(
        endpoint.state(START),
        EndpointState::Cooling { until: START + 90 * SECOND, strikes: 1 }
    );
    assert!(!endpoint.begin_probe(START + 89 * SECOND));
    endpoint.reset_health();
    assert_eq!(endpoint.state(START), EndpointState::Probation { passes: 0 });
    assert!(endpoint.take_dirty());
    assert!(!endpoint.take_dirty());
    endpoint.mark_dirty();
    assert!(endpoint.is_dirty());
}

#[test]
fn a_single_fault_on_probation_cools() {
    let mut endpoint = Endpoint::new("http://a".to_owned(), 15, 8, 0);
    endpoint.record_failure(START, FailureSignal::new(FaultKind::ServerError));
    assert!(endpoint.is_cooling());
    assert_eq!(endpoint.stats().cooling_events, 1);
    assert_eq!(endpoint.stats().failures, 1);
}

#[test]
fn heights_grow_stale() {
    let mut endpoint = Endpoint::new("http://a".to_owned(), 15, 8, 0);
    assert_eq!(endpoint.recent_height(START, 60 * SECOND), None);
    endpoint.observe_height(42, START);
    assert_eq!(endpoint.recent_height(START + 60 * SECOND, 60 * SECOND), Some(42));
    assert_eq!(endpoint.recent_height(START + 61 * SECOND, 60 * SECOND), None);
}

#[test]
fn the_first_token_is_always_there() {
    for rps in [1, 2, 15, 100] {
        let mut fresh = Endpoint::new("http://a".to_owned(), rps, 1, 0);
        let lease = fresh.try_acquire().expect("the first token");
        assert!(fresh.try_acquire().is_none(), "no slot is free");
        fresh.release(lease);
        let mut cooling = Endpoint::new("http://b".to_owned(), rps, 1, 0);
        cooling.cool_for(START, 60 * SECOND);
        assert!(cooling.try_acquire().is_none(), "the endpoint cools");
        assert!(cooling.try_acquire_probe().is_some(), "a probe draws the first token");
    }
}
