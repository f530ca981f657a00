use parser_api::load_monitor::{
    budget_multiplier, effective_delay_ms, AdaptiveGate, E621LoadMonitor, Priority, RuntimeConfig,
};

#[test]
fn budget_multiplier_high_budget() {
    assert_eq!(budget_multiplier(250), 1);
    assert_eq!(budget_multiplier(201), 1);
}

#[test]
fn budget_multiplier_medium_budget() {
    assert_eq!(budget_multiplier(150), 2);
    assert_eq!(budget_multiplier(101), 2);
}

#[test]
fn budget_multiplier_low_budget() {
    assert_eq!(budget_multiplier(75), 3);
    assert_eq!(budget_multiplier(51), 3);
}

#[test]
fn budget_multiplier_critical_budget() {
    assert_eq!(budget_multiplier(49), 5);
    assert_eq!(budget_multiplier(0), 5);
}

#[test]
fn budget_multiplier_unknown() {
    assert_eq!(budget_multiplier(E621LoadMonitor::UNKNOWN_REMAINING), 2);
}

#[test]
fn priority_ordering() {
    assert!(Priority::Live < Priority::Prefetch);
    assert!(Priority::Prefetch < Priority::Backfill);
}

#[test]
fn estimated_remaining_unknown_when_no_observation() {
    let m = E621LoadMonitor::global(0);
    assert_eq!(m.estimated_remaining(), E621LoadMonitor::UNKNOWN_REMAINING);
}

#[test]
fn observe_remaining_updates_estimate() {
    let mut m = E621LoadMonitor::global(0);
    m.observe_remaining(200);
    assert_eq!(m.estimated_remaining(), 200);
}

#[test]
fn record_pass_decrements_estimate() {
    let mut m = E621LoadMonitor::global(0);
    m.observe_remaining(100);
    m.record_pass(Priority::Live, 1);
    m.record_pass(Priority::Live, 2);
    assert_eq!(m.estimated_remaining(), 98);
}

#[test]
fn observe_remaining_resets_estimate() {
    let mut m = E621LoadMonitor::global(0);
    m.observe_remaining(50);
    m.record_pass(Priority::Live, 1);
    assert_eq!(m.estimated_remaining(), 49);
    m.observe_remaining(30);
    assert_eq!(m.estimated_remaining(), 30);
}

#[test]
fn estimated_remaining_saturates_at_zero() {
    let mut m = E621LoadMonitor::global(0);
    m.observe_remaining(2);
    m.record_pass(Priority::Live, 1);
    m.record_pass(Priority::Live, 2);
    m.record_pass(Priority::Live, 3);
    assert_eq!(m.estimated_remaining(), 0);
}

#[test]
fn prefetch_pass_does_not_update_last_live() {
    let mut m = E621LoadMonitor::global(0);
    m.record_pass(Priority::Live, 10);
    let after_live = m.ms_since_last_live(12);
    m.record_pass(Priority::Prefetch, 14);
    let after_prefetch = m.ms_since_last_live(15);
    assert!(
        after_prefetch >= after_live,
        "prefetch should not update last_live_pass: after_live={after_live}ms, after_prefetch={after_prefetch}ms"
    );
    assert_eq!(after_prefetch, 5);
}

fn runtime() -> RuntimeConfig {
    RuntimeConfig {
        live_rps_delay_ms: 250,
        prefetch_rps_delay_ms: 500,
        backfill_rps_delay_ms: 1000,
        backfill_live_window_ms: 5000,
    }
}

#[test]
fn delays_follow_priority_budget_and_live_window() {
    let mut m = E621LoadMonitor::global(0);
    m.observe_remaining(250);
    m.record_pass(Priority::Live, 1000);
    assert_eq!(effective_delay_ms(&m, &runtime(), Priority::Live, 1000), 250);
    assert_eq!(effective_delay_ms(&m, &runtime(), Priority::Prefetch, 1000), 2500);
    assert_eq!(effective_delay_ms(&m, &runtime(), Priority::Backfill, 5980), 1050);
    assert_eq!(effective_delay_ms(&m, &runtime(), Priority::Backfill, 6000), 1000);
    m.observe_remaining(40);
    assert_eq!(effective_delay_ms(&m, &runtime(), Priority::Live, 6000), 1250);
}

#[test]
fn gate_spaces_requests_in_order() {
    let mut m = E621LoadMonitor::global(0);
    m.observe_reset(77);
    assert_eq!(m.reset_at, 77);
    let mut gate = AdaptiveGate::global(100);
    assert_eq!(gate.wait(&mut m, Priority::Backfill, 100, 300), None);
    assert_eq!(gate.wait(&mut m, Priority::Live, 150, 300), Some(250));
    assert_eq!((m.sent_since_update, m.last_live_pass), (1, 0));
    assert_eq!(gate.wait(&mut m, Priority::Live, 400, 300), None);
    assert_eq!(gate.next_available, 700);
    assert_eq!(m.sent_since_update, 2);
    assert_eq!(m.last_live_pass, 400);
}

#[test]
fn budget_multiplier_at_the_steps() {
    assert_eq!(budget_multiplier(200), 2);
    assert_eq!(budget_multiplier(100), 3);
    assert_eq!(budget_multiplier(50), 3);
}

#[test]
fn two_backfills_in_a_row_keep_their_distance() {
    let mut m = E621LoadMonitor::global(0);
    let mut gate = AdaptiveGate::global(0);
    let delay = effective_delay_ms(&m, &runtime(), Priority::Backfill, 4000);
    assert_eq!(delay, 1000 * 2 + 1000);
    assert_eq!(gate.wait(&mut m, Priority::Backfill, 4000, delay), None);
    assert_eq!(gate.wait(&mut m, Priority::Backfill, 4000, delay), Some(3000));
    assert_eq!(gate.wait(&mut m, Priority::Backfill, 6999, delay), Some(1));
    assert_eq!(gate.wait(&mut m, Priority::Backfill, 7000, delay), None);
    assert_eq!(m.sent_since_update, 2);
}

#[test]
fn long_delays_are_taken_while_they_fit() {
    let mut m = E621LoadMonitor::global(0);
    m.observe_remaining(250);
    let runtime = RuntimeConfig { live_rps_delay_ms: u64::MAX, ..runtime() };
    assert_eq!(effective_delay_ms(&m, &runtime, Priority::Live, 0), u64::MAX);
}
